//! The login exchange that precedes ordinary traffic.
//!
//! The client sends one selector byte, answers the server's prompts for
//! user name and password, waits for the verdict on the login, asks to join
//! the channel and waits for the server to confirm it. Lines of chat that
//! arrive in between are kept, in order of arrival, and handed over when the
//! exchange is done.
//!
//! A [`Handshake`] makes the decisions and does no input or output itself.
//! The caller sends [`Handshake::opening`], then reads from the socket and
//! passes each outcome, with the time spent in the current wait, to
//! [`Handshake::advance`], which says what to do next.

use crate::framing::{line_bounds, OutcomeView, ReadOutcome};
use crate::protocol::{kind_of_line, line_kind, CodeTable, EventKind};
use crate::seqs::{complete_lines, contains_seq, unfinished};
use crate::text::{chars_of, contains_text, cut, glue, texts, utf8_text};
use vstd::prelude::*;
use vstd::slice::slice_subrange;
use vstd::utf8::{decode_utf8, valid_utf8};

verus! {

/// The byte that opens the exchange and selects the chat protocol.
pub const SELECTOR: u8 = 3;

/// How long each wait may take unless the caller says otherwise, in
/// milliseconds.
pub const DEFAULT_TIMEOUT_MS: u64 = 10000;

/// The waits of the exchange, in order.
#[derive(Clone, Copy, Debug, PartialEq, Eq, Structural)]
pub enum Stage {
    /// Waiting for the prompt for the user name.
    Username,
    /// Waiting for the prompt for the password.
    Password,
    /// Waiting for the verdict on the login.
    Login,
    /// Waiting for the confirmation that the channel was joined.
    Join,
}

/// Why the exchange failed.
#[derive(Clone, Debug, PartialEq, Eq)]
pub enum HandshakeError {
    /// User name or password was empty; nothing was sent.
    Precondition,
    /// The server closed the connection.
    ConnectionClosed,
    /// The awaited text did not arrive in time.
    Timeout(Stage),
    /// The server sent bytes that are not UTF-8.
    InvalidEncoding,
    /// Reading or writing failed for the given reason.
    Io(String),
    /// The server rejected the login.
    Auth,
}

/// The mathematical value of a [`HandshakeError`].
pub enum ErrorView {
    Precondition,
    ConnectionClosed,
    Timeout(Stage),
    InvalidEncoding,
    Io(Seq<char>),
    Auth,
}

impl View for HandshakeError {
    type V = ErrorView;

    open spec fn view(&self) -> ErrorView {
        match self {
            HandshakeError::Precondition => ErrorView::Precondition,
            HandshakeError::ConnectionClosed => ErrorView::ConnectionClosed,
            HandshakeError::Timeout(stage) => ErrorView::Timeout(*stage),
            HandshakeError::InvalidEncoding => ErrorView::InvalidEncoding,
            HandshakeError::Io(cause) => ErrorView::Io(cause@),
            HandshakeError::Auth => ErrorView::Auth,
        }
    }
}

/// What arrived during the exchange besides the awaited texts.
#[derive(Clone, Debug, PartialEq, Eq)]
pub struct ExtraMessages {
    /// The complete lines, in order of arrival.
    pub lines: Vec<String>,
    /// The beginning of a line whose end had not arrived when the exchange
    /// ended. It belongs in front of what is read next.
    pub partial: String,
}

/// The mathematical value of [`ExtraMessages`].
pub struct ExtraView {
    pub lines: Seq<Seq<char>>,
    pub partial: Seq<char>,
}

impl View for ExtraMessages {
    type V = ExtraView;

    open spec fn view(&self) -> ExtraView {
        ExtraView { lines: texts(self.lines@), partial: self.partial@ }
    }
}

/// What a wait looks for.
pub enum Awaited {
    /// A text that stands somewhere in what was received.
    Text(Seq<char>),
    /// A complete line whose code announces the channel.
    ChannelLine,
}

/// Whether `line` is what `awaited` looks for.
pub open spec fn hits(line: Seq<char>, awaited: Awaited, table: Map<Seq<char>, EventKind>) -> bool {
    match awaited {
        Awaited::Text(marker) => contains_seq(line, marker),
        Awaited::ChannelLine => line_kind(line, table) == EventKind::Channel,
    }
}

/// Whether one of `lines` is what `awaited` looks for.
pub open spec fn any_hit(
    lines: Seq<Seq<char>>,
    awaited: Awaited,
    table: Map<Seq<char>, EventKind>,
) -> bool {
    exists|k: int| 0 <= k < lines.len() && hits(#[trigger] lines[k], awaited, table)
}

/// The lines to keep for later: those of `lines` that are not empty and are
/// not what `awaited` looks for, in their order.
pub open spec fn extras_of(
    lines: Seq<Seq<char>>,
    awaited: Awaited,
    table: Map<Seq<char>, EventKind>,
) -> Seq<Seq<char>>
    decreases lines.len(),
{
    if lines.len() == 0 {
        Seq::empty()
    } else {
        let front = extras_of(lines.drop_last(), awaited, table);
        let line = lines.last();
        if line.len() > 0 && !hits(line, awaited, table) {
            front.push(line)
        } else {
            front
        }
    }
}

/// The complete lines of received text.
pub open spec fn text_lines(buffer: Seq<char>) -> Seq<Seq<char>> {
    complete_lines(buffer, '\r', '\n')
}

/// What follows the last line break of received text.
pub open spec fn text_rest(buffer: Seq<char>) -> Seq<char> {
    unfinished(buffer, '\r', '\n')
}

/// The text that announces a successful login of `username`.
pub open spec fn login_marker(username: Seq<char>) -> Seq<char> {
    "2010 NAME "@ + username
}

/// The text that announces a rejected login.
pub open spec fn failure_marker() -> Seq<char> {
    "Login failed."@
}

/// The mathematical value of a [`Handshake`].
pub struct HandshakeView {
    pub username: Seq<char>,
    pub password: Seq<char>,
    pub table: Map<Seq<char>, EventKind>,
    /// The wait in progress.
    pub stage: Stage,
    /// What was received and not yet dealt with.
    pub buffer: Seq<char>,
    /// The lines kept so far.
    pub extras: Seq<Seq<char>>,
    /// How long a wait may take, in milliseconds.
    pub timeout_ms: u64,
}

/// The mathematical value of a [`Progress`].
pub enum ProgressView {
    Reading(HandshakeView),
    Sending(HandshakeView, Seq<char>),
    Established(ExtraView),
    Failed(ErrorView),
}

/// The step taken when a wait for the text `marker` sees `buffer`.
///
/// While `marker` has not arrived, everything is kept and reading goes on.
/// Once it has, the complete lines that do not hold it are kept as extra
/// lines, `reply` is to be sent and the wait `next` begins. An unfinished
/// last line that holds the marker is used up; one that does not stays in
/// the buffer.
pub open spec fn prompt_step(
    h: HandshakeView,
    buffer: Seq<char>,
    marker: Seq<char>,
    reply: Seq<char>,
    next: Stage,
) -> ProgressView {
    if contains_seq(buffer, marker) {
        ProgressView::Sending(
            HandshakeView {
                stage: next,
                buffer: if contains_seq(text_rest(buffer), marker) {
                    Seq::empty()
                } else {
                    text_rest(buffer)
                },
                extras: h.extras + extras_of(text_lines(buffer), Awaited::Text(marker), h.table),
                ..h
            },
            reply,
        )
    } else {
        ProgressView::Reading(HandshakeView { buffer, ..h })
    }
}

/// The step taken when the wait for the channel sees `buffer`: once a
/// complete line announces the channel, the exchange is done.
pub open spec fn join_step(h: HandshakeView, buffer: Seq<char>) -> ProgressView {
    if any_hit(text_lines(buffer), Awaited::ChannelLine, h.table) {
        ProgressView::Established(
            ExtraView {
                lines: h.extras + extras_of(text_lines(buffer), Awaited::ChannelLine, h.table),
                partial: text_rest(buffer),
            },
        )
    } else {
        ProgressView::Reading(HandshakeView { buffer, ..h })
    }
}

/// The step taken when `buffer` is what has been received and not dealt
/// with.
pub open spec fn scan_step(h: HandshakeView, buffer: Seq<char>) -> ProgressView {
    match h.stage {
        Stage::Username => prompt_step(
            h,
            buffer,
            "Username:"@,
            h.username + "\r\n"@,
            Stage::Password,
        ),
        Stage::Password => prompt_step(h, buffer, "Password:"@, h.password + "\r\n"@, Stage::Login),
        Stage::Login => if contains_seq(buffer, failure_marker()) {
            ProgressView::Failed(ErrorView::Auth)
        } else {
            prompt_step(h, buffer, login_marker(h.username), "/join w3\r\n"@, Stage::Join)
        },
        Stage::Join => join_step(h, buffer),
    }
}

/// The step that follows one read.
///
/// A wait that has lasted longer than the timeout fails, whatever was
/// read. Otherwise a closed connection, a failed read and bytes that are
/// not UTF-8 end the exchange with their error; a quiet socket changes
/// nothing; text is added to the buffer and looked at.
pub open spec fn advance_spec(h: HandshakeView, elapsed_ms: u64, outcome: OutcomeView) -> ProgressView {
    if elapsed_ms > h.timeout_ms {
        ProgressView::Failed(ErrorView::Timeout(h.stage))
    } else {
        match outcome {
            OutcomeView::Closed => ProgressView::Failed(ErrorView::ConnectionClosed),
            OutcomeView::Failed(cause) => ProgressView::Failed(
                ErrorView::Io("Read error: "@ + cause),
            ),
            OutcomeView::Idle => ProgressView::Reading(h),
            OutcomeView::Data(bytes) => if valid_utf8(bytes) {
                scan_step(h, h.buffer + decode_utf8(bytes))
            } else {
                ProgressView::Failed(ErrorView::InvalidEncoding)
            },
        }
    }
}

/// The login exchange in progress.
pub struct Handshake {
    username: String,
    password: String,
    table: CodeTable,
    stage: Stage,
    buffer: String,
    extras: Vec<String>,
    timeout_ms: u64,
}

impl View for Handshake {
    type V = HandshakeView;

    closed spec fn view(&self) -> HandshakeView {
        HandshakeView {
            username: self.username@,
            password: self.password@,
            table: self.table@,
            stage: self.stage,
            buffer: self.buffer@,
            extras: texts(self.extras@),
            timeout_ms: self.timeout_ms,
        }
    }
}

/// What the caller does next.
pub enum Progress {
    /// Read again and come back with the outcome.
    Reading(Handshake),
    /// Send the text, start timing a new wait, then read.
    Sending(Handshake, String),
    /// The exchange is done; here is what else arrived.
    Established(ExtraMessages),
    /// The exchange has failed.
    Failed(HandshakeError),
}

impl View for Progress {
    type V = ProgressView;

    open spec fn view(&self) -> ProgressView {
        match self {
            Progress::Reading(h) => ProgressView::Reading(h@),
            Progress::Sending(h, text) => ProgressView::Sending(h@, text@),
            Progress::Established(extra) => ProgressView::Established(extra@),
            Progress::Failed(error) => ProgressView::Failed(error@),
        }
    }
}

/// What a wait looks for, in executable form.
enum Target<'a> {
    Text(&'a [char]),
    ChannelLine,
}

impl<'a> Target<'a> {
    spec fn awaited(self) -> Awaited {
        match self {
            Target::Text(marker) => Awaited::Text(marker@),
            Target::ChannelLine => Awaited::ChannelLine,
        }
    }
}

/// Goes through the complete lines of `buffer`, whose characters are
/// `chars` and whose line bounds are `bounds`. Reports whether a line was
/// what `target` looks for, and returns the lines to keep.
fn sort_lines(
    buffer: &str,
    chars: &[char],
    bounds: &Vec<(usize, usize)>,
    target: Target<'_>,
    table: &CodeTable,
) -> (r: (bool, Vec<String>))
    requires
        chars@ == buffer@,
        bounds@.len() == text_lines(buffer@).len(),
        forall|k: int|
            0 <= k < bounds@.len() ==> {
                &&& (#[trigger] bounds@[k]).0 <= bounds@[k].1 <= buffer@.len()
                &&& buffer@.subrange(bounds@[k].0 as int, bounds@[k].1 as int) == text_lines(
                    buffer@,
                )[k]
            },
    ensures
        r.0 == any_hit(text_lines(buffer@), target.awaited(), table@),
        texts(r.1@) == extras_of(text_lines(buffer@), target.awaited(), table@),
{
    let ghost all = text_lines(buffer@);
    let ghost awaited = target.awaited();
    let count = bounds.len();
    let mut extras: Vec<String> = Vec::new();
    let mut found = false;
    let mut k: usize = 0;
    proof {
        assert(all.take(0) == Seq::<Seq<char>>::empty());
        assert(texts(extras@) =~= Seq::<Seq<char>>::empty());
    }
    while k < count
        invariant
            count == bounds@.len(),
            k <= count,
            chars@ == buffer@,
            all == text_lines(buffer@),
            awaited == target.awaited(),
            bounds@.len() == all.len(),
            forall|j: int|
                0 <= j < bounds@.len() ==> {
                    &&& (#[trigger] bounds@[j]).0 <= bounds@[j].1 <= buffer@.len()
                    &&& buffer@.subrange(bounds@[j].0 as int, bounds@[j].1 as int) == all[j]
                },
            found == any_hit(all.take(k as int), awaited, table@),
            texts(extras@) == extras_of(all.take(k as int), awaited, table@),
        decreases count - k,
    {
        let (from, to) = bounds[k];
        assert(bounds@[k as int].0 <= bounds@[k as int].1);
        let line = cut(buffer, from, to);
        let hit = match target {
            Target::Text(marker) => contains_text(slice_subrange(chars, from, to), marker),
            Target::ChannelLine => match kind_of_line(line.as_str(), table) {
                EventKind::Channel => true,
                _ => false,
            },
        };
        proof {
            let upto = all.take(k + 1);
            let before = all.take(k as int);
            assert(upto.drop_last() == before);
            assert(upto.last() == all[k as int]);
            assert(line@ == all[k as int]);
            assert(hit == hits(all[k as int], awaited, table@));
            if any_hit(before, awaited, table@) {
                let w = choose|w: int| 0 <= w < before.len() && hits(#[trigger] before[w], awaited, table@);
                assert(upto[w] == before[w]);
            }
            if hit {
                assert(hits(upto[k as int], awaited, table@));
            }
            if any_hit(upto, awaited, table@) && !hit {
                let w = choose|w: int| 0 <= w < upto.len() && hits(#[trigger] upto[w], awaited, table@);
                assert(before[w] == upto[w]);
            }
        }
        if hit {
            found = true;
        } else if to > from {
            let ghost held = extras@;
            extras.push(line);
            proof {
                assert(texts(extras@) =~= texts(held).push(line@));
            }
        }
        k += 1;
    }
    proof {
        assert(all.take(count as int) == all);
    }
    (found, extras)
}

/// `first` followed by `second`.
fn chain(first: Vec<String>, second: Vec<String>) -> (all: Vec<String>)
    ensures
        texts(all@) == texts(first@) + texts(second@),
{
    let mut all = first;
    let mut rest = second;
    all.append(&mut rest);
    proof {
        assert(texts(all@) =~= texts(first@) + texts(second@));
    }
    all
}

impl Stage {
    /// Name of the wait, as it appears in reports: `username`, `password`,
    /// `login` or `join`.
    pub fn label(self) -> (name: &'static str)
        ensures
            name@ == match self {
                Stage::Username => "username"@,
                Stage::Password => "password"@,
                Stage::Login => "login"@,
                Stage::Join => "join"@,
            },
    {
        match self {
            Stage::Username => "username",
            Stage::Password => "password",
            Stage::Login => "login",
            Stage::Join => "join",
        }
    }
}

/// The sentence that reports an error to the user.
pub open spec fn error_text(error: ErrorView) -> Seq<char> {
    match error {
        ErrorView::Precondition => "Username and password cannot be empty"@,
        ErrorView::ConnectionClosed => "Connection closed by server"@,
        ErrorView::Timeout(Stage::Username) => "Timeout waiting for 'Username:'"@,
        ErrorView::Timeout(Stage::Password) => "Timeout waiting for 'Password:'"@,
        ErrorView::Timeout(Stage::Login) => "Timeout waiting for login response"@,
        ErrorView::Timeout(Stage::Join) => "Timeout waiting for join confirmation"@,
        ErrorView::InvalidEncoding => "Invalid UTF-8 received from server"@,
        ErrorView::Io(cause) => cause,
        ErrorView::Auth => "Login failed."@,
    }
}

impl HandshakeError {
    /// The sentence that reports the error to the user.
    pub fn message(&self) -> (text: String)
        ensures
            text@ == error_text(self@),
    {
        match self {
            HandshakeError::Precondition => "Username and password cannot be empty".to_owned(),
            HandshakeError::ConnectionClosed => "Connection closed by server".to_owned(),
            HandshakeError::Timeout(Stage::Username) => "Timeout waiting for 'Username:'".to_owned(),
            HandshakeError::Timeout(Stage::Password) => "Timeout waiting for 'Password:'".to_owned(),
            HandshakeError::Timeout(Stage::Login) => "Timeout waiting for login response".to_owned(),
            HandshakeError::Timeout(Stage::Join) => "Timeout waiting for join confirmation".to_owned(),
            HandshakeError::InvalidEncoding => "Invalid UTF-8 received from server".to_owned(),
            HandshakeError::Io(cause) => cause.clone(),
            HandshakeError::Auth => "Login failed.".to_owned(),
        }
    }
}

impl Handshake {
    /// Begins an exchange for the given credentials, with the codes of the
    /// chat gateway and the default timeout. Empty credentials are refused
    /// before anything is sent.
    pub fn new(username: &str, password: &str) -> (r: Result<Handshake, HandshakeError>)
        ensures
            (username@.len() == 0 || password@.len() == 0) <==> r is Err,
            r matches Err(e) ==> e@ == ErrorView::Precondition,
            r matches Ok(h) ==> h@ == (HandshakeView {
                username: username@,
                password: password@,
                table: crate::protocol::standard_table(),
                stage: Stage::Username,
                buffer: Seq::empty(),
                extras: Seq::empty(),
                timeout_ms: DEFAULT_TIMEOUT_MS,
            }),
    {
        if username.is_empty() || password.is_empty() {
            return Err(HandshakeError::Precondition);
        }
        let h = Handshake {
            username: username.to_owned(),
            password: password.to_owned(),
            table: CodeTable::standard(),
            stage: Stage::Username,
            buffer: String::new(),
            extras: Vec::new(),
            timeout_ms: DEFAULT_TIMEOUT_MS,
        };
        proof {
            assert(texts(h.extras@) =~= Seq::<Seq<char>>::empty());
        }
        Ok(h)
    }

    /// The same exchange with another limit on each wait.
    pub fn with_timeout(self, timeout_ms: u64) -> (h: Handshake)
        ensures
            h@ == (HandshakeView { timeout_ms, ..self@ }),
    {
        let Handshake { username, password, table, stage, buffer, extras, timeout_ms: _ } = self;
        Handshake { username, password, table, stage, buffer, extras, timeout_ms }
    }

    /// The same exchange with another table of codes.
    pub fn with_table(self, table: CodeTable) -> (h: Handshake)
        ensures
            h@ == (HandshakeView { table: table@, ..self@ }),
    {
        let Handshake { username, password, table: _, stage, buffer, extras, timeout_ms } = self;
        Handshake { username, password, table, stage, buffer, extras, timeout_ms }
    }

    /// What the client sends before its first read: the selector byte.
    pub fn opening() -> (bytes: Vec<u8>)
        ensures
            bytes@ == seq![SELECTOR],
    {
        let mut bytes: Vec<u8> = Vec::new();
        bytes.push(SELECTOR);
        bytes
    }

    /// The wait in progress.
    pub fn stage(&self) -> (stage: Stage)
        ensures
            stage == self@.stage,
    {
        self.stage
    }

    /// Whether a wait that has lasted `elapsed_ms` has run out of time.
    pub fn timed_out(&self, elapsed_ms: u64) -> (r: bool)
        ensures
            r == (elapsed_ms > self@.timeout_ms),
    {
        elapsed_ms > self.timeout_ms
    }

    /// The step for a wait for the text `marker`, with `buffer` received.
    fn answer_prompt(self, buffer: String, marker: &str, reply: String, next: Stage) -> (p: Progress)
        ensures
            p@ == prompt_step(self@, buffer@, marker@, reply@, next),
    {
        let Handshake { username, password, table, stage, buffer: _, extras, timeout_ms } = self;
        let chars = chars_of(buffer.as_str());
        let wanted = chars_of(marker);
        if !contains_text(chars.as_slice(), wanted.as_slice()) {
            return Progress::Reading(
                Handshake { username, password, table, stage, buffer, extras, timeout_ms },
            );
        }
        let (bounds, rest) = line_bounds(chars.as_slice(), '\r', '\n');
        let (_, fresh) = sort_lines(
            buffer.as_str(),
            chars.as_slice(),
            &bounds,
            Target::Text(wanted.as_slice()),
            &table,
        );
        let extras = chain(extras, fresh);
        let n = chars.len();
        let tail = slice_subrange(chars.as_slice(), rest, n);
        proof {
            assert(tail@ == buffer@.skip(rest as int));
        }
        let kept = if contains_text(tail, wanted.as_slice()) {
            String::new()
        } else {
            cut(buffer.as_str(), rest, n)
        };
        Progress::Sending(
            Handshake { username, password, table, stage: next, buffer: kept, extras, timeout_ms },
            reply,
        )
    }

    /// The step for the wait for the channel, with `buffer` received.
    fn confirm_join(self, buffer: String) -> (p: Progress)
        ensures
            p@ == join_step(self@, buffer@),
    {
        let Handshake { username, password, table, stage, buffer: _, extras, timeout_ms } = self;
        let chars = chars_of(buffer.as_str());
        let (bounds, rest) = line_bounds(chars.as_slice(), '\r', '\n');
        let (found, fresh) = sort_lines(
            buffer.as_str(),
            chars.as_slice(),
            &bounds,
            Target::ChannelLine,
            &table,
        );
        if found {
            let n = chars.len();
            let partial = cut(buffer.as_str(), rest, n);
            proof {
                assert(partial@ == buffer@.skip(rest as int));
            }
            Progress::Established(ExtraMessages { lines: chain(extras, fresh), partial })
        } else {
            Progress::Reading(
                Handshake { username, password, table, stage, buffer, extras, timeout_ms },
            )
        }
    }

    /// Takes the outcome of one read, made `elapsed_ms` milliseconds into
    /// the current wait, and says what to do next.
    pub fn advance(self, elapsed_ms: u64, outcome: &ReadOutcome) -> (p: Progress)
        ensures
            p@ == advance_spec(self@, elapsed_ms, outcome@),
    {
        if elapsed_ms > self.timeout_ms {
            return Progress::Failed(HandshakeError::Timeout(self.stage));
        }
        match outcome {
            ReadOutcome::Closed => Progress::Failed(HandshakeError::ConnectionClosed),
            ReadOutcome::Failed(cause) => Progress::Failed(
                HandshakeError::Io(glue("Read error: ", cause.as_str())),
            ),
            ReadOutcome::Idle => Progress::Reading(self),
            ReadOutcome::Data(bytes) => {
                match utf8_text(bytes.as_slice()) {
                    None => Progress::Failed(HandshakeError::InvalidEncoding),
                    Some(text) => {
                        let buffer = glue(self.buffer.as_str(), text);
                        match self.stage {
                            Stage::Username => {
                                let reply = glue(self.username.as_str(), "\r\n");
                                self.answer_prompt(buffer, "Username:", reply, Stage::Password)
                            },
                            Stage::Password => {
                                let reply = glue(self.password.as_str(), "\r\n");
                                self.answer_prompt(buffer, "Password:", reply, Stage::Login)
                            },
                            Stage::Login => {
                                let chars = chars_of(buffer.as_str());
                                let failure = chars_of("Login failed.");
                                if contains_text(chars.as_slice(), failure.as_slice()) {
                                    Progress::Failed(HandshakeError::Auth)
                                } else {
                                    let marker = glue("2010 NAME ", self.username.as_str());
                                    let reply = "/join w3\r\n".to_owned();
                                    self.answer_prompt(buffer, marker.as_str(), reply, Stage::Join)
                                }
                            },
                            Stage::Join => self.confirm_join(buffer),
                        }
                    },
                }
            },
        }
    }
}

} // verus!
