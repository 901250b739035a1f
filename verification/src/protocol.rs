//! The line protocol: numeric codes, the kinds they stand for, and the
//! decoding of one received line into a typed [`Event`].
//!
//! A line is a sequence of tokens separated by single spaces. The first
//! token is the numeric code, the second a legacy text tag that carries no
//! information, and the rest is the payload.

use crate::seqs::{
    contains_seq, find, free_of, join, join_from, lemma_find, lemma_split_join, occurs_at, split,
};
use crate::text::{chars_of, cut, find_in, glue, same_text, split_bounds, trim_bounds, trimmed};
use vstd::prelude::*;
use vstd::slice::slice_subrange;

verus! {

/// Permission tier of a user, as far as the server reveals it.
#[derive(Clone, Copy, Debug, PartialEq, Eq, Structural)]
pub enum Role {
    User,
    Moderator,
    Admin,
}

/// The role that a four-digit role code stands for: `0003` and `0010` are
/// administrators, `0001` and `0002` moderators, everything else a plain
/// user.
pub open spec fn role_of_code(code: Seq<char>) -> Role {
    if code == "0003"@ || code == "0010"@ {
        Role::Admin
    } else if code == "0001"@ || code == "0002"@ {
        Role::Moderator
    } else {
        Role::User
    }
}

impl Role {
    /// Position of the role in the order User < Moderator < Admin.
    pub open spec fn rank(self) -> nat {
        match self {
            Role::User => 0,
            Role::Moderator => 1,
            Role::Admin => 2,
        }
    }

    /// The role for a role code taken from a USER line.
    pub fn from_code(code: &str) -> (role: Role)
        ensures
            role == role_of_code(code@),
    {
        if same_text(code, "0003") || same_text(code, "0010") {
            Role::Admin
        } else if same_text(code, "0001") || same_text(code, "0002") {
            Role::Moderator
        } else {
            Role::User
        }
    }
}

/// What a numeric code announces. `Unknown` stands for every code that the
/// table does not list.
#[derive(Clone, Copy, Debug, PartialEq, Eq, Structural)]
pub enum EventKind {
    User,
    Join,
    Leave,
    Whisper,
    WhisperTo,
    Talk,
    Broadcast,
    Info,
    Error,
    Stats,
    InGame,
    LoggedIn,
    LoggedOut,
    Channel,
    Unknown,
}

/// The kind that `table` gives to `code`; `Unknown` for a code it does not
/// list.
pub open spec fn kind_in(table: Map<Seq<char>, EventKind>, code: Seq<char>) -> EventKind {
    if table.dom().contains(code) {
        table[code]
    } else {
        EventKind::Unknown
    }
}

/// The mapping that a list of entries stands for: later entries replace
/// earlier ones with the same code.
pub open spec fn table_of(entries: Seq<(String, EventKind)>) -> Map<Seq<char>, EventKind>
    decreases entries.len(),
{
    if entries.len() == 0 {
        Map::empty()
    } else {
        table_of(entries.drop_last()).insert(entries.last().0@, entries.last().1)
    }
}

/// The codes of the chat gateway.
pub open spec fn standard_table() -> Map<Seq<char>, EventKind> {
    Map::<Seq<char>, EventKind>::empty().insert("1001"@, EventKind::User).insert(
        "1007"@,
        EventKind::Channel,
    ).insert("1009"@, EventKind::User).insert("1018"@, EventKind::Info).insert(
        "1019"@,
        EventKind::Error,
    ).insert("1020"@, EventKind::Stats).insert("1005"@, EventKind::Talk).insert(
        "1022"@,
        EventKind::LoggedIn,
    ).insert("1023"@, EventKind::LoggedOut).insert("1002"@, EventKind::Join).insert(
        "1003"@,
        EventKind::Leave,
    ).insert("1004"@, EventKind::Whisper).insert("1010"@, EventKind::WhisperTo)
}

/// What the gateway's table says of each of its thirteen codes. The codes
/// are all there is in the table, and none of them holds a space.
pub proof fn lemma_standard_table()
    ensures
        kind_in(standard_table(), "1001"@) == EventKind::User,
        kind_in(standard_table(), "1009"@) == EventKind::User,
        kind_in(standard_table(), "1002"@) == EventKind::Join,
        kind_in(standard_table(), "1003"@) == EventKind::Leave,
        kind_in(standard_table(), "1004"@) == EventKind::Whisper,
        kind_in(standard_table(), "1010"@) == EventKind::WhisperTo,
        kind_in(standard_table(), "1005"@) == EventKind::Talk,
        kind_in(standard_table(), "1018"@) == EventKind::Info,
        kind_in(standard_table(), "1019"@) == EventKind::Error,
        kind_in(standard_table(), "1020"@) == EventKind::Stats,
        kind_in(standard_table(), "1022"@) == EventKind::LoggedIn,
        kind_in(standard_table(), "1023"@) == EventKind::LoggedOut,
        kind_in(standard_table(), "1007"@) == EventKind::Channel,
        standard_table().dom() == set![
            "1001"@,
            "1009"@,
            "1002"@,
            "1003"@,
            "1004"@,
            "1010"@,
            "1005"@,
            "1018"@,
            "1019"@,
            "1020"@,
            "1022"@,
            "1023"@,
            "1007"@,
        ],
        forall|code: Seq<char>| standard_table().dom().contains(code) ==> free_of(code, ' '),
{
    reveal_strlit("1001");
    reveal_strlit("1009");
    reveal_strlit("1002");
    reveal_strlit("1003");
    reveal_strlit("1004");
    reveal_strlit("1010");
    reveal_strlit("1005");
    reveal_strlit("1018");
    reveal_strlit("1019");
    reveal_strlit("1020");
    reveal_strlit("1022");
    reveal_strlit("1023");
    reveal_strlit("1007");
    assert("1001"@[2] == '0' && "1001"@[3] == '1');
    assert("1009"@[2] == '0' && "1009"@[3] == '9');
    assert("1002"@[2] == '0' && "1002"@[3] == '2');
    assert("1003"@[2] == '0' && "1003"@[3] == '3');
    assert("1004"@[2] == '0' && "1004"@[3] == '4');
    assert("1010"@[2] == '1' && "1010"@[3] == '0');
    assert("1005"@[2] == '0' && "1005"@[3] == '5');
    assert("1018"@[2] == '1' && "1018"@[3] == '8');
    assert("1019"@[2] == '1' && "1019"@[3] == '9');
    assert("1020"@[2] == '2' && "1020"@[3] == '0');
    assert("1022"@[2] == '2' && "1022"@[3] == '2');
    assert("1023"@[2] == '2' && "1023"@[3] == '3');
    assert("1007"@[2] == '0' && "1007"@[3] == '7');
}

/// A mapping from numeric code to event kind.
pub struct CodeTable {
    entries: Vec<(String, EventKind)>,
}

impl View for CodeTable {
    type V = Map<Seq<char>, EventKind>;

    closed spec fn view(&self) -> Map<Seq<char>, EventKind> {
        table_of(self.entries@)
    }
}

impl CodeTable {
    /// A table that lists no code: every line decodes as unknown.
    pub fn new() -> (table: CodeTable)
        ensures
            table@ == Map::<Seq<char>, EventKind>::empty(),
    {
        CodeTable { entries: Vec::new() }
    }

    /// Lists `code` as `kind`, replacing what the table said of `code`
    /// before.
    pub fn insert(&mut self, code: &str, kind: EventKind)
        ensures
            final(self)@ == old(self)@.insert(code@, kind),
    {
        let owned = code.to_owned();
        self.entries.push((owned, kind));
        proof {
            assert(self.entries@.drop_last() == old(self).entries@);
        }
    }

    /// The table of the chat gateway.
    pub fn standard() -> (table: CodeTable)
        ensures
            table@ == standard_table(),
    {
        let mut table = CodeTable::new();
        table.insert("1001", EventKind::User);
        table.insert("1007", EventKind::Channel);
        table.insert("1009", EventKind::User);
        table.insert("1018", EventKind::Info);
        table.insert("1019", EventKind::Error);
        table.insert("1020", EventKind::Stats);
        table.insert("1005", EventKind::Talk);
        table.insert("1022", EventKind::LoggedIn);
        table.insert("1023", EventKind::LoggedOut);
        table.insert("1002", EventKind::Join);
        table.insert("1003", EventKind::Leave);
        table.insert("1004", EventKind::Whisper);
        table.insert("1010", EventKind::WhisperTo);
        table
    }

    /// The kind that the table gives to `code`.
    pub fn kind_of(&self, code: &str) -> (kind: EventKind)
        ensures
            kind == kind_in(self@, code@),
    {
        let mut kind = EventKind::Unknown;
        let n = self.entries.len();
        let mut i: usize = 0;
        while i < n
            invariant
                n == self.entries@.len(),
                i <= n,
                kind == kind_in(table_of(self.entries@.take(i as int)), code@),
            decreases n - i,
        {
            if same_text(self.entries[i].0.as_str(), code) {
                kind = self.entries[i].1;
            }
            proof {
                let next = self.entries@.take(i + 1);
                assert(next.drop_last() == self.entries@.take(i as int));
                assert(next.last() == self.entries@[i as int]);
            }
            i += 1;
        }
        proof {
            assert(self.entries@.take(n as int) == self.entries@);
        }
        kind
    }
}

/// One decoded line.
#[derive(Clone, Debug, PartialEq, Eq)]
pub enum Event {
    /// A member of the channel, listed with the server's role code.
    UserListed { user: String, role_code: String },
    /// A user entered the channel.
    Joined { user: String },
    /// A user left the channel.
    Left { user: String },
    /// A private message from `from`.
    Whisper { from: String, text: String },
    /// The server's echo of a private message sent to `to`.
    WhisperEcho { to: String, text: String },
    /// A public message.
    Talk { from: String, text: String },
    /// A message from the server to everybody.
    Broadcast { text: String },
    /// An informational message.
    Info { text: String },
    /// The name and topic of the current channel.
    ChannelTopicUpdate { channel: String, topic: String },
    /// The server is about to list the channel's members anew.
    ChannelReset,
    /// An error reported by the server, or a line that could not be decoded.
    Error { text: String },
    /// A line whose code the table does not list, or whose kind has no
    /// event of its own; `raw` is what follows code and tag.
    Unknown { raw: String },
}

/// The mathematical value of an [`Event`].
pub enum EventView {
    UserListed { user: Seq<char>, role_code: Seq<char> },
    Joined { user: Seq<char> },
    Left { user: Seq<char> },
    Whisper { from: Seq<char>, text: Seq<char> },
    WhisperEcho { to: Seq<char>, text: Seq<char> },
    Talk { from: Seq<char>, text: Seq<char> },
    Broadcast { text: Seq<char> },
    Info { text: Seq<char> },
    ChannelTopicUpdate { channel: Seq<char>, topic: Seq<char> },
    ChannelReset,
    Error { text: Seq<char> },
    Unknown { raw: Seq<char> },
}

impl View for Event {
    type V = EventView;

    open spec fn view(&self) -> EventView {
        match self {
            Event::UserListed { user, role_code } => EventView::UserListed {
                user: user@,
                role_code: role_code@,
            },
            Event::Joined { user } => EventView::Joined { user: user@ },
            Event::Left { user } => EventView::Left { user: user@ },
            Event::Whisper { from, text } => EventView::Whisper { from: from@, text: text@ },
            Event::WhisperEcho { to, text } => EventView::WhisperEcho { to: to@, text: text@ },
            Event::Talk { from, text } => EventView::Talk { from: from@, text: text@ },
            Event::Broadcast { text } => EventView::Broadcast { text: text@ },
            Event::Info { text } => EventView::Info { text: text@ },
            Event::ChannelTopicUpdate { channel, topic } => EventView::ChannelTopicUpdate {
                channel: channel@,
                topic: topic@,
            },
            Event::ChannelReset => EventView::ChannelReset,
            Event::Error { text } => EventView::Error { text: text@ },
            Event::Unknown { raw } => EventView::Unknown { raw: raw@ },
        }
    }
}

/// The text that separates channel name and topic in an INFO payload.
pub open spec fn topic_marker() -> Seq<char> {
    " topic: "@
}

/// The error event for a line that lacks a token its kind requires. The
/// diagnostic is `prefix` followed by the whole line.
pub open spec fn malformed(prefix: Seq<char>, line: Seq<char>) -> EventView {
    EventView::Error { text: prefix + line }
}

/// The event of an INFO line with payload `text`.
pub open spec fn info_event(text: Seq<char>) -> EventView {
    let at = find(text, topic_marker());
    if at >= 0 {
        EventView::ChannelTopicUpdate {
            channel: trimmed(text.take(at)),
            topic: trimmed(text.skip(at + topic_marker().len())),
        }
    } else {
        EventView::Info { text }
    }
}

/// The event that a line of the given kind stands for, where `payload`
/// holds the tokens after code and tag, and `line` is the whole line (it
/// goes into diagnostics).
pub open spec fn event_of_payload(kind: EventKind, payload: Seq<Seq<char>>, line: Seq<char>) -> EventView {
    match kind {
        EventKind::User => if payload.len() < 1 {
            malformed("Malformed USER message: "@, line)
        } else if payload.len() < 2 {
            malformed("Malformed USER message (missing role code): "@, line)
        } else {
            EventView::UserListed { user: payload[0], role_code: payload[1] }
        },
        EventKind::Join => if payload.len() < 1 {
            malformed("Malformed JOIN message: "@, line)
        } else {
            EventView::Joined { user: payload[0] }
        },
        EventKind::Leave => if payload.len() < 1 {
            malformed("Malformed LEAVE message: "@, line)
        } else {
            EventView::Left { user: payload[0] }
        },
        EventKind::Whisper => if payload.len() < 1 {
            malformed("Malformed WHISPER message: "@, line)
        } else {
            EventView::Whisper { from: payload[0], text: join_from(payload, 2, ' ') }
        },
        EventKind::WhisperTo => if payload.len() < 1 {
            malformed("Malformed WHISPER_TO message: "@, line)
        } else {
            EventView::WhisperEcho { to: payload[0], text: join_from(payload, 2, ' ') }
        },
        EventKind::Talk => if payload.len() < 1 {
            malformed("Malformed TALK message: "@, line)
        } else {
            EventView::Talk { from: payload[0], text: join_from(payload, 1, ' ') }
        },
        EventKind::Broadcast => EventView::Broadcast { text: join_from(payload, 0, ' ') },
        EventKind::Info => info_event(join_from(payload, 0, ' ')),
        EventKind::Error => EventView::Error { text: join_from(payload, 0, ' ') },
        EventKind::Channel => EventView::ChannelReset,
        EventKind::Stats
        | EventKind::InGame
        | EventKind::LoggedIn
        | EventKind::LoggedOut
        | EventKind::Unknown => EventView::Unknown { raw: join_from(payload, 0, ' ') },
    }
}

/// The kind of `line` under `table`: the kind of its first token.
pub open spec fn line_kind(line: Seq<char>, table: Map<Seq<char>, EventKind>) -> EventKind {
    kind_in(table, split(line, ' ')[0])
}

/// The event that `line` decodes to under `table`.
pub open spec fn decode_spec(line: Seq<char>, table: Map<Seq<char>, EventKind>) -> EventView {
    let t = split(line, ' ');
    if t.len() < 2 {
        malformed("Malformed message: "@, line)
    } else {
        event_of_payload(line_kind(line, table), t.skip(2), line)
    }
}

/// Number of tokens that a line of the given kind needs at least, code and
/// tag included.
pub open spec fn required_tokens(kind: EventKind) -> nat {
    match kind {
        EventKind::User => 4,
        EventKind::Join
        | EventKind::Leave
        | EventKind::Whisper
        | EventKind::WhisperTo
        | EventKind::Talk => 3,
        _ => 2,
    }
}

/// The tokens after the first two, joined from position `k` on, are the
/// tokens joined from position `k + 2` on.
pub proof fn lemma_payload_text(t: Seq<Seq<char>>, k: int)
    requires
        t.len() >= 2,
        0 <= k,
    ensures
        join_from(t.skip(2), k, ' ') == join_from(t, k + 2, ' '),
{
    if k + 2 < t.len() {
        assert(t.skip(2).skip(k) == t.skip(k + 2));
    }
}

/// A line put together from a code, a tag and payload tokens decodes to
/// the event documented for the kind that the table gives to the code,
/// with the fields taken from the payload tokens.
///
/// This holds for every table, every code (listed or not), every tag and
/// every payload, as long as no token holds a space.
pub proof fn lemma_decode_assembled(
    table: Map<Seq<char>, EventKind>,
    code: Seq<char>,
    tag: Seq<char>,
    payload: Seq<Seq<char>>,
)
    requires
        free_of(code, ' '),
        free_of(tag, ' '),
        forall|k: int| 0 <= k < payload.len() ==> free_of(#[trigger] payload[k], ' '),
    ensures
        decode_spec(join(seq![code, tag] + payload, ' '), table) == event_of_payload(
            kind_in(table, code),
            payload,
            join(seq![code, tag] + payload, ' '),
        ),
{
    let tokens = seq![code, tag] + payload;
    assert forall|k: int| 0 <= k < tokens.len() implies free_of(#[trigger] tokens[k], ' ') by {
        if k >= 2 {
            assert(tokens[k] == payload[k - 2]);
        }
    }
    lemma_split_join(tokens, ' ');
    assert(tokens.skip(2) == payload);
}

/// A line with fewer tokens than its kind needs decodes to an error whose
/// text ends in the line itself.
pub proof fn lemma_missing_token_reported(line: Seq<char>, table: Map<Seq<char>, EventKind>)
    requires
        split(line, ' ').len() < required_tokens(line_kind(line, table)),
    ensures
        decode_spec(line, table) is Error,
        decode_spec(line, table)->Error_text.len() >= line.len(),
        decode_spec(line, table)->Error_text.skip(
            decode_spec(line, table)->Error_text.len() - line.len(),
        ) == line,
        contains_seq(decode_spec(line, table)->Error_text, line),
{
    let text = decode_spec(line, table)->Error_text;
    let at = text.len() - line.len();
    assert(text.skip(at) == line);
    assert(text.subrange(at, at + line.len()) == line);
    assert(occurs_at(text, line, at));
}

/// The error event whose diagnostic is `prefix` followed by `line`.
fn malformed_event(prefix: &str, line: &str) -> (event: Event)
    ensures
        event@ == malformed(prefix@, line@),
{
    Event::Error { text: glue(prefix, line) }
}

/// What follows token `k` of `line`, where `b` holds the token bounds.
fn payload_from(line: &str, b: &Vec<(usize, usize)>, k: usize) -> (text: String)
    requires
        b@.len() == split(line@, ' ').len(),
        forall|j: int|
            0 <= j < b@.len() ==> {
                &&& (#[trigger] b@[j]).0 <= b@[j].1 <= line@.len()
                &&& join_from(split(line@, ' '), j, ' ') == line@.skip(b@[j].0 as int)
            },
    ensures
        text@ == join_from(split(line@, ' '), k as int, ' '),
{
    if k < b.len() {
        let n = line.unicode_len();
        let from = b[k].0;
        assert(b@[k as int].0 <= b@[k as int].1);
        cut(line, from, n)
    } else {
        String::new()
    }
}

/// Token `k` of `line`, where `b` holds the token bounds.
fn token(line: &str, b: &Vec<(usize, usize)>, k: usize) -> (text: String)
    requires
        k < b@.len(),
        b@.len() == split(line@, ' ').len(),
        forall|j: int|
            0 <= j < b@.len() ==> {
                &&& (#[trigger] b@[j]).0 <= b@[j].1 <= line@.len()
                &&& line@.subrange(b@[j].0 as int, b@[j].1 as int) == split(line@, ' ')[j]
            },
    ensures
        text@ == split(line@, ' ')[k as int],
{
    let from = b[k].0;
    let to = b[k].1;
    assert(b@[k as int].0 <= b@[k as int].1);
    cut(line, from, to)
}

/// The event of an INFO line whose payload is `text`.
fn decode_info(text: String) -> (event: Event)
    ensures
        event@ == info_event(text@),
{
    let chars = chars_of(text.as_str());
    let marker = chars_of(" topic: ");
    let n = chars.len();
    proof {
        lemma_find(chars@, marker@);
    }
    match find_in(chars.as_slice(), marker.as_slice()) {
        Some(at) => {
            let after = at + marker.len();
            let left = slice_subrange(chars.as_slice(), 0, at);
            let right = slice_subrange(chars.as_slice(), after, n);
            let (a, b) = trim_bounds(left);
            let (c, d) = trim_bounds(right);
            proof {
                assert(left@ == text@.take(at as int));
                assert(right@ == text@.skip(after as int));
                assert(left@.subrange(a as int, b as int) == text@.subrange(a as int, b as int));
                assert(right@.subrange(c as int, d as int) == text@.subrange(
                    after + c,
                    after + d,
                ));
            }
            let channel = cut(text.as_str(), a, b);
            let topic = cut(text.as_str(), after + c, after + d);
            Event::ChannelTopicUpdate { channel, topic }
        },
        None => Event::Info { text },
    }
}

/// The kind that `table` gives to the code at the front of `line`.
pub fn kind_of_line(line: &str, table: &CodeTable) -> (kind: EventKind)
    ensures
        kind == line_kind(line@, table@),
{
    let chars = chars_of(line);
    let b = split_bounds(chars.as_slice(), ' ');
    let code = token(line, &b, 0);
    table.kind_of(code.as_str())
}

/// Decodes one line. Never fails: a line that lacks a token its kind
/// requires decodes to an [`Event::Error`] whose text ends in the line
/// itself.
pub fn decode(line: &str, table: &CodeTable) -> (event: Event)
    ensures
        event@ == decode_spec(line@, table@),
{
    let chars = chars_of(line);
    let b = split_bounds(chars.as_slice(), ' ');
    let ghost t = split(line@, ' ');
    assert forall|j: int| 0 <= j < b@.len() implies join_from(t, j, ' ') == line@.skip(
        (#[trigger] b@[j]).0 as int,
    ) by {}
    let count = b.len();
    proof {
        if t.len() >= 2 {
            lemma_payload_text(t, 0);
            lemma_payload_text(t, 1);
            lemma_payload_text(t, 2);
        }
    }
    let code = token(line, &b, 0);
    let kind = table.kind_of(code.as_str());
    if count < 2 {
        return malformed_event("Malformed message: ", line);
    }
    match kind {
        EventKind::User => {
            if count < 3 {
                malformed_event("Malformed USER message: ", line)
            } else if count < 4 {
                malformed_event("Malformed USER message (missing role code): ", line)
            } else {
                Event::UserListed { user: token(line, &b, 2), role_code: token(line, &b, 3) }
            }
        },
        EventKind::Join => {
            if count < 3 {
                malformed_event("Malformed JOIN message: ", line)
            } else {
                Event::Joined { user: token(line, &b, 2) }
            }
        },
        EventKind::Leave => {
            if count < 3 {
                malformed_event("Malformed LEAVE message: ", line)
            } else {
                Event::Left { user: token(line, &b, 2) }
            }
        },
        EventKind::Whisper => {
            if count < 3 {
                malformed_event("Malformed WHISPER message: ", line)
            } else {
                Event::Whisper { from: token(line, &b, 2), text: payload_from(line, &b, 4) }
            }
        },
        EventKind::WhisperTo => {
            if count < 3 {
                malformed_event("Malformed WHISPER_TO message: ", line)
            } else {
                Event::WhisperEcho { to: token(line, &b, 2), text: payload_from(line, &b, 4) }
            }
        },
        EventKind::Talk => {
            if count < 3 {
                malformed_event("Malformed TALK message: ", line)
            } else {
                Event::Talk { from: token(line, &b, 2), text: payload_from(line, &b, 3) }
            }
        },
        EventKind::Broadcast => Event::Broadcast { text: payload_from(line, &b, 2) },
        EventKind::Info => decode_info(payload_from(line, &b, 2)),
        EventKind::Error => Event::Error { text: payload_from(line, &b, 2) },
        EventKind::Channel => Event::ChannelReset,
        EventKind::Stats
        | EventKind::InGame
        | EventKind::LoggedIn
        | EventKind::LoggedOut
        | EventKind::Unknown => Event::Unknown { raw: payload_from(line, &b, 2) },
    }
}

} // verus!
