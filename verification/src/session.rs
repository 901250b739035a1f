//! What the client believes about the channel it is in: who is present,
//! with which role, and under which name and topic the channel runs.
//!
//! The state changes only through [`SessionState::apply`], one event at a
//! time, in the order in which the lines were decoded. Each event also
//! yields the messages to show for it.

use crate::protocol::{decode, decode_spec, role_of_code, CodeTable, Event, EventKind, EventView, Role};
use crate::text::{glue, same_text, texts};
use vstd::prelude::*;

verus! {

/// The kind of message a notification carries; the presentation layer
/// picks colours and icons by it.
#[derive(Clone, Copy, Debug, PartialEq, Eq, Structural)]
pub enum Category {
    /// Public chat.
    Chat,
    /// Server broadcasts.
    System,
    /// Private messages, received or echoed.
    Whisper,
    /// Users entering and leaving.
    Presence,
    /// Informational messages of the server.
    Info,
    /// Errors, and lines that could not be understood.
    Error,
}

/// A message ready to be shown, stamped with the time at which its event
/// was processed.
#[derive(Clone, Debug, PartialEq, Eq)]
pub struct Notification {
    pub category: Category,
    pub text: String,
    pub timestamp: u64,
}

/// The mathematical value of a [`Notification`].
pub struct NotificationView {
    pub category: Category,
    pub text: Seq<char>,
    pub timestamp: u64,
}

impl View for Notification {
    type V = NotificationView;

    open spec fn view(&self) -> NotificationView {
        NotificationView { category: self.category, text: self.text@, timestamp: self.timestamp }
    }
}

/// The values of a list of notifications, in order.
pub open spec fn notification_views(list: Seq<Notification>) -> Seq<NotificationView> {
    list.map_values(|n: Notification| n@)
}

/// The messages that one event gives rise to: at most one, and none for
/// events that only change the state.
pub open spec fn notices(event: EventView, timestamp: u64) -> Seq<NotificationView> {
    match event {
        EventView::UserListed { .. } => Seq::empty(),
        EventView::Joined { user } => seq![
            NotificationView {
                category: Category::Presence,
                text: user + " has joined the channel"@,
                timestamp,
            },
        ],
        EventView::Left { user } => seq![
            NotificationView {
                category: Category::Presence,
                text: user + " has left the channel"@,
                timestamp,
            },
        ],
        EventView::Whisper { from, text } => seq![
            NotificationView {
                category: Category::Whisper,
                text: from + " whispers: "@ + text,
                timestamp,
            },
        ],
        EventView::WhisperEcho { to, text } => seq![
            NotificationView {
                category: Category::Whisper,
                text: "You whisper "@ + to + ": "@ + text,
                timestamp,
            },
        ],
        EventView::Talk { from, text } => seq![
            NotificationView { category: Category::Chat, text: from + ": "@ + text, timestamp },
        ],
        EventView::Broadcast { text } => seq![
            NotificationView { category: Category::System, text: "Broadcast: "@ + text, timestamp },
        ],
        EventView::Info { text } => seq![
            NotificationView { category: Category::Info, text: "INFO: "@ + text, timestamp },
        ],
        EventView::ChannelTopicUpdate { .. } => Seq::empty(),
        EventView::ChannelReset => Seq::empty(),
        EventView::Error { text } => seq![
            NotificationView { category: Category::Error, text: "ERROR: "@ + text, timestamp },
        ],
        EventView::Unknown { raw } => seq![
            NotificationView { category: Category::Error, text: "Unknown: "@ + raw, timestamp },
        ],
    }
}

/// The mathematical value of a [`SessionState`].
pub struct SessionView {
    /// The users believed present.
    pub roster: Set<Seq<char>>,
    /// The role recorded for a user.
    pub roles: Map<Seq<char>, Role>,
    /// Name of the current channel, once the server has announced it.
    pub channel: Option<Seq<char>>,
    /// Topic of the current channel, once the server has announced it.
    pub topic: Option<Seq<char>>,
}

impl SessionView {
    /// The state before any event: nobody present, no channel known.
    pub open spec fn empty() -> SessionView {
        SessionView { roster: Set::empty(), roles: Map::empty(), channel: None, topic: None }
    }

    /// Every user with a recorded role is on the roster.
    pub open spec fn consistent(self) -> bool {
        self.roles.dom().subset_of(self.roster)
    }

    /// `user` put on the roster. A role already recorded for `user` stays;
    /// otherwise `role` is recorded.
    pub open spec fn with_member(self, user: Seq<char>, role: Role) -> SessionView {
        SessionView {
            roster: self.roster.insert(user),
            roles: if self.roles.dom().contains(user) {
                self.roles
            } else {
                self.roles.insert(user, role)
            },
            ..self
        }
    }
}

/// The state after `event`, given the state before it.
pub open spec fn apply_spec(s: SessionView, event: EventView) -> SessionView {
    match event {
        EventView::UserListed { user, role_code } => s.with_member(user, role_of_code(role_code)),
        EventView::Joined { user } => s.with_member(user, Role::User),
        EventView::Left { user } => SessionView {
            roster: s.roster.remove(user),
            roles: s.roles.remove(user),
            ..s
        },
        EventView::ChannelReset => SessionView { roster: Set::empty(), roles: Map::empty(), ..s },
        EventView::ChannelTopicUpdate { channel, topic } => SessionView {
            channel: Some(channel),
            topic: Some(topic),
            ..s
        },
        _ => s,
    }
}

/// The state after a run of events, applied one after the other.
pub open spec fn apply_all_spec(s: SessionView, events: Seq<EventView>) -> SessionView
    decreases events.len(),
{
    if events.len() == 0 {
        s
    } else {
        apply_spec(apply_all_spec(s, events.drop_last()), events.last())
    }
}

/// The messages for a run of events: those of the first event, then those
/// of the second, and so on.
pub open spec fn notices_all(events: Seq<EventView>, timestamp: u64) -> Seq<NotificationView>
    decreases events.len(),
{
    if events.len() == 0 {
        Seq::empty()
    } else {
        notices_all(events.drop_last(), timestamp) + notices(events.last(), timestamp)
    }
}

/// The events that a run of lines decodes to, in order.
pub open spec fn decode_all(lines: Seq<Seq<char>>, table: Map<Seq<char>, EventKind>) -> Seq<
    EventView,
> {
    lines.map_values(|line: Seq<char>| decode_spec(line, table))
}

/// A channel reset leaves nobody on the roster and no role recorded, and
/// keeps channel name and topic. A second reset right after changes
/// nothing.
pub proof fn lemma_reset_clears(s: SessionView)
    ensures
        apply_spec(s, EventView::ChannelReset).roster == Set::<Seq<char>>::empty(),
        apply_spec(s, EventView::ChannelReset).roles == Map::<Seq<char>, Role>::empty(),
        apply_spec(s, EventView::ChannelReset).channel == s.channel,
        apply_spec(s, EventView::ChannelReset).topic == s.topic,
        apply_spec(apply_spec(s, EventView::ChannelReset), EventView::ChannelReset) == apply_spec(
            s,
            EventView::ChannelReset,
        ),
{
}

/// Roles are sticky: whatever the event, a user who had a role before it
/// and has one after it has the same role. No listing and no join replaces
/// a recorded role, neither by a lower nor by a higher one.
pub proof fn lemma_role_sticks(s: SessionView, event: EventView, user: Seq<char>)
    requires
        s.roles.dom().contains(user),
        apply_spec(s, event).roles.dom().contains(user),
    ensures
        apply_spec(s, event).roles[user] == s.roles[user],
        apply_spec(s, event).roles[user].rank() >= s.roles[user].rank(),
{
}

/// Listing a user who has a role keeps the user and the role, whatever
/// role code the listing carries.
pub proof fn lemma_listing_keeps_role(s: SessionView, user: Seq<char>, role_code: Seq<char>)
    requires
        s.roles.dom().contains(user),
    ensures
        apply_spec(s, EventView::UserListed { user, role_code }).roles.dom().contains(user),
        apply_spec(s, EventView::UserListed { user, role_code }).roles[user] == s.roles[user],
        apply_spec(s, EventView::UserListed { user, role_code }).roster.contains(user),
{
}

/// A join of a user who has a role keeps the user and the role.
pub proof fn lemma_join_keeps_role(s: SessionView, user: Seq<char>)
    requires
        s.roles.dom().contains(user),
    ensures
        apply_spec(s, EventView::Joined { user }).roles.dom().contains(user),
        apply_spec(s, EventView::Joined { user }).roles[user] == s.roles[user],
        apply_spec(s, EventView::Joined { user }).roster.contains(user),
{
}

/// No event records a role for a user who is not on the roster: if the
/// role map is within the roster before an event, it is so after it.
pub proof fn lemma_apply_consistent(s: SessionView, event: EventView)
    requires
        s.consistent(),
    ensures
        apply_spec(s, event).consistent(),
{
}

/// The same holds for a run of events.
pub proof fn lemma_apply_all_consistent(s: SessionView, events: Seq<EventView>)
    requires
        s.consistent(),
    ensures
        apply_all_spec(s, events).consistent(),
    decreases events.len(),
{
    if events.len() > 0 {
        lemma_apply_all_consistent(s, events.drop_last());
        lemma_apply_consistent(apply_all_spec(s, events.drop_last()), events.last());
    }
}

/// One user on the roster.
struct Member {
    name: String,
    role: Role,
}

/// No two members share a name.
spec fn distinct(m: Seq<Member>) -> bool {
    forall|i: int, j: int| 0 <= i < j < m.len() ==> m[i].name@ != m[j].name@
}

/// The role map that a list of members stands for.
spec fn roles_of(m: Seq<Member>) -> Map<Seq<char>, Role>
    decreases m.len(),
{
    if m.len() == 0 {
        Map::empty()
    } else {
        roles_of(m.drop_last()).insert(m.last().name@, m.last().role)
    }
}

proof fn lemma_roles_dom(m: Seq<Member>)
    ensures
        roles_of(m).dom().finite(),
        forall|n: Seq<char>|
            roles_of(m).dom().contains(n) <==> exists|i: int| 0 <= i < m.len() && m[i].name@ == n,
    decreases m.len(),
{
    if m.len() > 0 {
        let front = m.drop_last();
        lemma_roles_dom(front);
        assert forall|n: Seq<char>|
            roles_of(m).dom().contains(n) <==> exists|i: int|
                0 <= i < m.len() && m[i].name@ == n by {
            if roles_of(m).dom().contains(n) {
                if n == m.last().name@ {
                    assert(m[m.len() - 1].name@ == n);
                } else {
                    let i = choose|i: int| 0 <= i < front.len() && front[i].name@ == n;
                    assert(m[i].name@ == n);
                }
            }
            if exists|i: int| 0 <= i < m.len() && m[i].name@ == n {
                let i = choose|i: int| 0 <= i < m.len() && m[i].name@ == n;
                if i < m.len() - 1 {
                    assert(front[i].name@ == n);
                }
            }
        }
    }
}

proof fn lemma_roles_value(m: Seq<Member>, i: int)
    requires
        distinct(m),
        0 <= i < m.len(),
    ensures
        roles_of(m).dom().contains(m[i].name@),
        roles_of(m)[m[i].name@] == m[i].role,
    decreases m.len(),
{
    let front = m.drop_last();
    if i < m.len() - 1 {
        assert(front[i] == m[i]);
        lemma_roles_value(front, i);
    }
}

proof fn lemma_roles_remove(m: Seq<Member>, i: int)
    requires
        distinct(m),
        0 <= i < m.len(),
    ensures
        distinct(m.remove(i)),
        roles_of(m.remove(i)) == roles_of(m).remove(m[i].name@),
    decreases m.len(),
{
    let front = m.drop_last();
    let r = m.remove(i);
    assert forall|a: int, b: int| 0 <= a < b < r.len() implies r[a].name@ != r[b].name@ by {
        let a0 = if a < i { a } else { a + 1 };
        let b0 = if b < i { b } else { b + 1 };
        assert(r[a] == m[a0]);
        assert(r[b] == m[b0]);
    }
    if i == m.len() - 1 {
        assert(r == front);
        lemma_roles_dom(front);
        if roles_of(front).dom().contains(m[i].name@) {
            let k = choose|k: int| 0 <= k < front.len() && front[k].name@ == m[i].name@;
            assert(m[k].name@ == m[i].name@);
        }
        assert(roles_of(front) == roles_of(m).remove(m[i].name@));
    } else {
        assert(front[i] == m[i]);
        lemma_roles_remove(front, i);
        assert(r.drop_last() == front.remove(i));
        assert(r.last() == m.last());
        assert(roles_of(r) == roles_of(front.remove(i)).insert(m.last().name@, m.last().role));
        assert(m.last().name@ != m[i].name@);
        assert(roles_of(r) == roles_of(m).remove(m[i].name@));
    }
}

/// The client's picture of the channel.
pub struct SessionState {
    members: Vec<Member>,
    channel: Option<String>,
    topic: Option<String>,
}

/// The view of an optional string.
pub open spec fn text_view(s: Option<String>) -> Option<Seq<char>> {
    match s {
        Some(t) => Some(t@),
        None => None,
    }
}

impl View for SessionState {
    type V = SessionView;

    closed spec fn view(&self) -> SessionView {
        SessionView {
            roster: roles_of(self.members@).dom(),
            roles: roles_of(self.members@),
            channel: text_view(self.channel),
            topic: text_view(self.topic),
        }
    }
}

/// Position of the member called `name`.
fn position(members: &Vec<Member>, name: &str) -> (r: Option<usize>)
    ensures
        match r {
            Some(i) => i < members@.len() && members@[i as int].name@ == name@,
            None => forall|j: int| 0 <= j < members@.len() ==> members@[j].name@ != name@,
        },
{
    let n = members.len();
    let mut i: usize = 0;
    while i < n
        invariant
            n == members@.len(),
            i <= n,
            forall|j: int| 0 <= j < i ==> members@[j].name@ != name@,
        decreases n - i,
    {
        if same_text(members[i].name.as_str(), name) {
            return Some(i);
        }
        i += 1;
    }
    None
}

/// A list holding one notification.
fn single(category: Category, text: String, timestamp: u64) -> (out: Vec<Notification>)
    ensures
        notification_views(out@) == seq![NotificationView { category, text: text@, timestamp }],
{
    let mut out: Vec<Notification> = Vec::new();
    out.push(Notification { category, text, timestamp });
    proof {
        assert(notification_views(out@) =~= seq![
            NotificationView { category, text: text@, timestamp },
        ]);
    }
    out
}

/// The messages to show for `event`, stamped with `timestamp`.
pub fn notifications_for(event: &Event, timestamp: u64) -> (out: Vec<Notification>)
    ensures
        notification_views(out@) == notices(event@, timestamp),
{
    match event {
        Event::Joined { user } => single(
            Category::Presence,
            glue(user.as_str(), " has joined the channel"),
            timestamp,
        ),
        Event::Left { user } => single(
            Category::Presence,
            glue(user.as_str(), " has left the channel"),
            timestamp,
        ),
        Event::Whisper { from, text } => {
            let head = glue(from.as_str(), " whispers: ");
            single(Category::Whisper, glue(head.as_str(), text.as_str()), timestamp)
        },
        Event::WhisperEcho { to, text } => {
            let a = glue("You whisper ", to.as_str());
            let b = glue(a.as_str(), ": ");
            single(Category::Whisper, glue(b.as_str(), text.as_str()), timestamp)
        },
        Event::Talk { from, text } => {
            let head = glue(from.as_str(), ": ");
            single(Category::Chat, glue(head.as_str(), text.as_str()), timestamp)
        },
        Event::Broadcast { text } => single(
            Category::System,
            glue("Broadcast: ", text.as_str()),
            timestamp,
        ),
        Event::Info { text } => single(Category::Info, glue("INFO: ", text.as_str()), timestamp),
        Event::Error { text } => single(Category::Error, glue("ERROR: ", text.as_str()), timestamp),
        Event::Unknown { raw } => single(
            Category::Error,
            glue("Unknown: ", raw.as_str()),
            timestamp,
        ),
        Event::UserListed { .. } | Event::ChannelTopicUpdate { .. } | Event::ChannelReset => {
            let out: Vec<Notification> = Vec::new();
            proof {
                assert(notification_views(out@) =~= Seq::<NotificationView>::empty());
            }
            out
        },
    }
}

impl SessionState {
    #[verifier::type_invariant]
    spec fn well_formed(self) -> bool {
        distinct(self.members@)
    }

    /// The state at the start of a connection: nobody present, no channel
    /// known.
    pub fn new() -> (state: SessionState)
        ensures
            state@ == SessionView::empty(),
    {
        let state = SessionState { members: Vec::new(), channel: None, topic: None };
        proof {
            assert(state@.roster =~= Set::<Seq<char>>::empty());
        }
        state
    }

    /// In every state the roster and the role map cover the same users; in
    /// particular no role is recorded for an absent user.
    pub proof fn lemma_consistent(&self)
        ensures
            self@.consistent(),
            self@.roles.dom() == self@.roster,
            self@.roster.finite(),
    {
        lemma_roles_dom(self.members@);
    }

    /// Puts `name` on the roster with `role`, unless `name` is there
    /// already.
    fn admit_member(&mut self, name: &str, role: Role)
        ensures
            final(self)@ == old(self)@.with_member(name@, role),
    {
        proof {
            use_type_invariant(&*self);
            lemma_roles_dom(self.members@);
        }
        let found = position(&self.members, name);
        if found.is_none() {
            let mut members: Vec<Member> = Vec::new();
            core::mem::swap(&mut members, &mut self.members);
            let ghost before = members@;
            members.push(Member { name: name.to_owned(), role });
            proof {
                assert(members@.drop_last() == before);
                assert(distinct(members@));
            }
            self.members = members;
            proof {
                assert(self@.roster =~= old(self)@.roster.insert(name@));
            }
        } else {
            proof {
                assert(old(self)@.roster.insert(name@) =~= old(self)@.roster);
            }
        }
    }

    /// Takes `name` off the roster, together with its role.
    fn dismiss_member(&mut self, name: &str)
        ensures
            final(self)@ == (SessionView {
                roster: old(self)@.roster.remove(name@),
                roles: old(self)@.roles.remove(name@),
                ..old(self)@
            }),
    {
        proof {
            use_type_invariant(&*self);
            lemma_roles_dom(self.members@);
        }
        match position(&self.members, name) {
            Some(i) => {
                let mut members: Vec<Member> = Vec::new();
                core::mem::swap(&mut members, &mut self.members);
                proof {
                    lemma_roles_remove(members@, i as int);
                }
                let _ = members.remove(i);
                self.members = members;
                proof {
                    assert(self@.roster =~= old(self)@.roster.remove(name@));
                }
            },
            None => {
                proof {
                    assert(old(self)@.roster.remove(name@) =~= old(self)@.roster);
                    assert(old(self)@.roles.remove(name@) =~= old(self)@.roles);
                }
            },
        }
    }

    /// Applies one event: updates roster, roles, channel and topic as
    /// [`apply_spec`] says, and returns the messages to show for the event,
    /// stamped with `timestamp`.
    pub fn apply(&mut self, event: &Event, timestamp: u64) -> (out: Vec<Notification>)
        ensures
            final(self)@ == apply_spec(old(self)@, event@),
            notification_views(out@) == notices(event@, timestamp),
    {
        match event {
            Event::UserListed { user, role_code } => {
                let role = Role::from_code(role_code.as_str());
                self.admit_member(user.as_str(), role);
            },
            Event::Joined { user } => {
                self.admit_member(user.as_str(), Role::User);
            },
            Event::Left { user } => {
                self.dismiss_member(user.as_str());
            },
            Event::ChannelReset => {
                self.members = Vec::new();
                proof {
                    assert(self@.roster =~= Set::<Seq<char>>::empty());
                }
            },
            Event::ChannelTopicUpdate { channel, topic } => {
                proof {
                    use_type_invariant(&*self);
                }
                self.channel = Some(channel.clone());
                self.topic = Some(topic.clone());
            },
            _ => {},
        }
        notifications_for(event, timestamp)
    }

    /// Decodes `line` with `table` and applies the event.
    pub fn parse_message(&mut self, line: &str, table: &CodeTable, timestamp: u64) -> (out: Vec<
        Notification,
    >)
        ensures
            final(self)@ == apply_spec(old(self)@, decode_spec(line@, table@)),
            notification_views(out@) == notices(decode_spec(line@, table@), timestamp),
    {
        let event = decode(line, table);
        self.apply(&event, timestamp)
    }

    /// Decodes the lines with `table` and applies the events one after the
    /// other, in the order of the lines. The messages come out in that
    /// order too.
    pub fn parse_messages(&mut self, lines: &[String], table: &CodeTable, timestamp: u64) -> (out:
        Vec<Notification>)
        ensures
            final(self)@ == apply_all_spec(old(self)@, decode_all(texts(lines@), table@)),
            notification_views(out@) == notices_all(
                decode_all(texts(lines@), table@),
                timestamp,
            ),
    {
        let ghost events = decode_all(texts(lines@), table@);
        let mut out: Vec<Notification> = Vec::new();
        let n = lines.len();
        let mut i: usize = 0;
        proof {
            assert(notification_views(out@) =~= Seq::<NotificationView>::empty());
            assert(events.take(0) =~= Seq::<EventView>::empty());
        }
        while i < n
            invariant
                n == lines@.len(),
                i <= n,
                events == decode_all(texts(lines@), table@),
                events.len() == n,
                self@ == apply_all_spec(old(self)@, events.take(i as int)),
                notification_views(out@) == notices_all(events.take(i as int), timestamp),
            decreases n - i,
        {
            let ghost before = out@;
            let mut batch = self.parse_message(lines[i].as_str(), table, timestamp);
            let ghost added = batch@;
            out.append(&mut batch);
            proof {
                let upto = events.take(i + 1);
                assert(upto.drop_last() == events.take(i as int));
                assert(upto.last() == decode_spec(lines@[i as int]@, table@));
                assert(notification_views(out@) =~= notification_views(before) + notification_views(
                    added,
                ));
            }
            i += 1;
        }
        proof {
            assert(events.take(n as int) == events);
        }
        out
    }

    /// Whether `name` is on the roster.
    pub fn is_present(&self, name: &str) -> (r: bool)
        ensures
            r == self@.roster.contains(name@),
    {
        proof {
            lemma_roles_dom(self.members@);
        }
        position(&self.members, name).is_some()
    }

    /// The role recorded for `name`, if `name` is on the roster.
    pub fn role_of(&self, name: &str) -> (r: Option<Role>)
        ensures
            r == if self@.roles.dom().contains(name@) {
                Some(self@.roles[name@])
            } else {
                None
            },
    {
        proof {
            use_type_invariant(self);
            lemma_roles_dom(self.members@);
        }
        match position(&self.members, name) {
            Some(i) => {
                proof {
                    lemma_roles_value(self.members@, i as int);
                }
                Some(self.members[i].role)
            },
            None => None,
        }
    }

    /// Number of users on the roster.
    pub fn user_count(&self) -> (n: usize)
        ensures
            n == self@.roster.len(),
    {
        proof {
            use_type_invariant(self);
            lemma_roster_len(self.members@);
        }
        self.members.len()
    }

    /// The names on the roster, each once.
    pub fn users(&self) -> (names: Vec<String>)
        ensures
            texts(names@).no_duplicates(),
            texts(names@).to_set() == self@.roster,
    {
        proof {
            use_type_invariant(self);
            lemma_roles_dom(self.members@);
        }
        let n = self.members.len();
        let mut names: Vec<String> = Vec::new();
        let mut i: usize = 0;
        while i < n
            invariant
                n == self.members@.len(),
                i <= n,
                names@.len() == i,
                forall|j: int| 0 <= j < i ==> (#[trigger] names@[j])@ == self.members@[j].name@,
            decreases n - i,
        {
            names.push(self.members[i].name.clone());
            i += 1;
        }
        proof {
            let listed = texts(names@);
            assert forall|a: int, b: int| 0 <= a < listed.len() && 0 <= b < listed.len() && a
                != b implies listed[a] != listed[b] by {
                assert(listed[a] == names@[a]@);
                assert(listed[b] == names@[b]@);
            }
            assert forall|name: Seq<char>| listed.to_set().contains(name) <==> self@.roster.contains(
                name,
            ) by {
                if listed.to_set().contains(name) {
                    let j = choose|j: int| 0 <= j < listed.len() && listed[j] == name;
                    assert(names@[j]@ == self.members@[j].name@);
                }
                if self@.roster.contains(name) {
                    let j = choose|j: int| 0 <= j < self.members@.len() && self.members@[j].name@ == name;
                    assert(listed[j] == names@[j]@);
                }
            }
            assert(listed.to_set() =~= self@.roster);
        }
        names
    }

    /// Name of the current channel, once announced.
    pub fn channel(&self) -> (r: Option<&String>)
        ensures
            text_views(r) == self@.channel,
    {
        self.channel.as_ref()
    }

    /// Topic of the current channel, once announced.
    pub fn topic(&self) -> (r: Option<&String>)
        ensures
            text_views(r) == self@.topic,
    {
        self.topic.as_ref()
    }
}

/// The view of an optional borrowed string.
pub open spec fn text_views(s: Option<&String>) -> Option<Seq<char>> {
    match s {
        Some(t) => Some(t@),
        None => None,
    }
}

proof fn lemma_roster_len(m: Seq<Member>)
    requires
        distinct(m),
    ensures
        roles_of(m).dom().len() == m.len(),
    decreases m.len(),
{
    lemma_roles_dom(m);
    if m.len() > 0 {
        let front = m.drop_last();
        lemma_roster_len(front);
        lemma_roles_dom(front);
        if roles_of(front).dom().contains(m.last().name@) {
            let k = choose|k: int| 0 <= k < front.len() && front[k].name@ == m.last().name@;
            assert(m[k].name@ == m[m.len() - 1].name@);
        }
    }
}

} // verus!
