use bnetchat::protocol::{CodeTable, Event, Role};
use bnetchat::session::{Category, Notification, SessionState};

fn s(text: &str) -> String {
    text.to_string()
}

fn listed(user: &str, code: &str) -> Event {
    Event::UserListed { user: s(user), role_code: s(code) }
}

fn note(category: Category, text: &str, timestamp: u64) -> Notification {
    Notification { category, text: s(text), timestamp }
}

#[test]
fn new_state_is_empty() {
    let state = SessionState::new();
    assert_eq!(state.user_count(), 0);
    assert!(!state.is_present("Alice"));
    assert_eq!(state.role_of("Alice"), None);
    assert_eq!(state.channel(), None);
    assert_eq!(state.topic(), None);
}

#[test]
fn channel_reset_empties_roster_and_roles_and_is_idempotent() {
    let mut state = SessionState::new();
    state.apply(&listed("Alice", "0003"), 1);
    state.apply(&Event::Joined { user: s("Bob") }, 2);
    state.apply(
        &Event::ChannelTopicUpdate { channel: s("W3"), topic: s("hello") },
        3,
    );
    assert_eq!(state.user_count(), 2);

    let out = state.apply(&Event::ChannelReset, 4);
    assert!(out.is_empty());
    assert_eq!(state.user_count(), 0);
    assert!(!state.is_present("Alice"));
    assert_eq!(state.role_of("Alice"), None);
    assert_eq!(state.role_of("Bob"), None);
    assert_eq!(state.channel(), Some(&s("W3")));
    assert_eq!(state.topic(), Some(&s("hello")));

    let out = state.apply(&Event::ChannelReset, 5);
    assert!(out.is_empty());
    assert_eq!(state.user_count(), 0);
    assert_eq!(state.role_of("Alice"), None);
    assert_eq!(state.channel(), Some(&s("W3")));
}

#[test]
fn role_is_not_downgraded_by_a_later_listing() {
    let mut state = SessionState::new();
    state.apply(&listed("Bob", "0003"), 1);
    assert_eq!(state.role_of("Bob"), Some(Role::Admin));
    state.apply(&Event::Talk { from: s("Bob"), text: s("hi") }, 2);
    state.apply(&listed("Bob", "0000"), 3);
    assert_eq!(state.role_of("Bob"), Some(Role::Admin));
    assert_eq!(state.user_count(), 1);
}

#[test]
fn role_recorded_first_stays_even_against_a_higher_one() {
    let mut state = SessionState::new();
    state.apply(&listed("Bob", "0000"), 1);
    state.apply(&listed("Bob", "0010"), 2);
    assert_eq!(state.role_of("Bob"), Some(Role::User));
}

#[test]
fn join_does_not_downgrade() {
    let mut state = SessionState::new();
    state.apply(&listed("Bob", "0001"), 1);
    state.apply(&Event::Joined { user: s("Bob") }, 2);
    assert_eq!(state.role_of("Bob"), Some(Role::Moderator));
    state.apply(&Event::Joined { user: s("Carol") }, 3);
    assert_eq!(state.role_of("Carol"), Some(Role::User));
}

#[test]
fn leaving_removes_user_and_role() {
    let mut state = SessionState::new();
    state.apply(&listed("Alice", "0003"), 1);
    state.apply(&listed("Bob", "0001"), 1);
    state.apply(&listed("Carol", "0000"), 1);
    let out = state.apply(&Event::Left { user: s("Bob") }, 2);
    assert_eq!(out, vec![note(Category::Presence, "Bob has left the channel", 2)]);
    assert!(!state.is_present("Bob"));
    assert_eq!(state.role_of("Bob"), None);
    assert_eq!(state.user_count(), 2);
    assert_eq!(state.role_of("Alice"), Some(Role::Admin));
    assert_eq!(state.role_of("Carol"), Some(Role::User));
    // A user who comes back is listed anew.
    state.apply(&listed("Bob", "0000"), 3);
    assert_eq!(state.role_of("Bob"), Some(Role::User));
}

#[test]
fn leaving_of_an_absent_user_changes_nothing() {
    let mut state = SessionState::new();
    state.apply(&listed("Alice", "0003"), 1);
    let out = state.apply(&Event::Left { user: s("Nobody") }, 2);
    assert_eq!(out.len(), 1);
    assert_eq!(state.user_count(), 1);
    assert_eq!(state.role_of("Alice"), Some(Role::Admin));
}

#[test]
fn topic_update_changes_state_and_says_nothing() {
    let mut state = SessionState::new();
    let out = state.apply(
        &Event::ChannelTopicUpdate { channel: s("W3"), topic: s("be nice") },
        9,
    );
    assert!(out.is_empty());
    assert_eq!(state.channel(), Some(&s("W3")));
    assert_eq!(state.topic(), Some(&s("be nice")));
}

#[test]
fn each_message_event_gives_one_notification() {
    let mut state = SessionState::new();
    assert_eq!(state.apply(&listed("Alice", "0000"), 7), vec![]);
    assert_eq!(
        state.apply(&Event::Joined { user: s("Bob") }, 7),
        vec![note(Category::Presence, "Bob has joined the channel", 7)]
    );
    assert_eq!(
        state.apply(&Event::Whisper { from: s("Bob"), text: s("psst") }, 8),
        vec![note(Category::Whisper, "Bob whispers: psst", 8)]
    );
    assert_eq!(
        state.apply(&Event::WhisperEcho { to: s("Bob"), text: s("what") }, 9),
        vec![note(Category::Whisper, "You whisper Bob: what", 9)]
    );
    assert_eq!(
        state.apply(&Event::Talk { from: s("Bob"), text: s("hi all") }, 10),
        vec![note(Category::Chat, "Bob: hi all", 10)]
    );
    assert_eq!(
        state.apply(&Event::Broadcast { text: s("maintenance") }, 11),
        vec![note(Category::System, "Broadcast: maintenance", 11)]
    );
    assert_eq!(
        state.apply(&Event::Info { text: s("welcome") }, 12),
        vec![note(Category::Info, "INFO: welcome", 12)]
    );
    assert_eq!(
        state.apply(&Event::Error { text: s("no such user") }, 13),
        vec![note(Category::Error, "ERROR: no such user", 13)]
    );
    assert_eq!(
        state.apply(&Event::Unknown { raw: s("5 wins") }, 14),
        vec![note(Category::Error, "Unknown: 5 wins", 14)]
    );
    assert_eq!(state.user_count(), 2);
}

#[test]
fn lines_are_processed_in_order() {
    let table = CodeTable::standard();
    let mut state = SessionState::new();
    let lines = vec![
        s("1001 X Alice 0010"),
        s("1002 X Bob"),
        s("1005 X Bob hi"),
        s("1003 X Alice"),
        s("9999"),
        s("1018 X W3 topic: fun"),
    ];
    let out = state.parse_messages(&lines, &table, 42);
    assert_eq!(
        out,
        vec![
            note(Category::Presence, "Bob has joined the channel", 42),
            note(Category::Chat, "Bob: hi", 42),
            note(Category::Presence, "Alice has left the channel", 42),
            note(Category::Error, "ERROR: Malformed message: 9999", 42),
        ]
    );
    assert!(!state.is_present("Alice"));
    assert_eq!(state.role_of("Bob"), Some(Role::User));
    assert_eq!(state.channel(), Some(&s("W3")));
    assert_eq!(state.topic(), Some(&s("fun")));
}

#[test]
fn single_line_is_decoded_and_applied() {
    let table = CodeTable::standard();
    let mut state = SessionState::new();
    let out = state.parse_message("1001 X Alice 0002", &table, 1);
    assert!(out.is_empty());
    assert_eq!(state.role_of("Alice"), Some(Role::Moderator));
    let out = state.parse_message("1007 X w3", &table, 2);
    assert!(out.is_empty());
    assert_eq!(state.user_count(), 0);
}

#[test]
fn users_lists_each_name_once() {
    let mut state = SessionState::new();
    state.apply(&listed("Alice", "0003"), 1);
    state.apply(&Event::Joined { user: s("Bob") }, 2);
    state.apply(&listed("Alice", "0000"), 3);
    state.apply(&listed("Carol", "0001"), 4);
    state.apply(&Event::Left { user: s("Bob") }, 5);
    let mut names = state.users();
    names.sort();
    assert_eq!(names, vec![s("Alice"), s("Carol")]);
    assert_eq!(state.user_count(), 2);
}
