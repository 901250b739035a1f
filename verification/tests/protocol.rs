use bnetchat::protocol::{decode, kind_of_line, CodeTable, Event, EventKind, Role};

fn s(text: &str) -> String {
    text.to_string()
}

#[test]
fn join_line_names_the_user() {
    let table = CodeTable::standard();
    assert_eq!(decode("1002 X Alice", &table), Event::Joined { user: s("Alice") });
}

#[test]
fn every_listed_code_decodes_to_its_kind() {
    let table = CodeTable::standard();
    assert_eq!(
        decode("1001 X Alice 0010", &table),
        Event::UserListed { user: s("Alice"), role_code: s("0010") }
    );
    assert_eq!(
        decode("1009 X Bob 0000 extra", &table),
        Event::UserListed { user: s("Bob"), role_code: s("0000") }
    );
    assert_eq!(decode("1002 X Alice", &table), Event::Joined { user: s("Alice") });
    assert_eq!(decode("1003 X Alice", &table), Event::Left { user: s("Alice") });
    assert_eq!(
        decode("1004 X Bob me hello there  friend", &table),
        Event::Whisper { from: s("Bob"), text: s("hello there  friend") }
    );
    assert_eq!(
        decode("1010 X Bob me see you", &table),
        Event::WhisperEcho { to: s("Bob"), text: s("see you") }
    );
    assert_eq!(
        decode("1005 X Bob hi all", &table),
        Event::Talk { from: s("Bob"), text: s("hi all") }
    );
    assert_eq!(decode("1018 X welcome home", &table), Event::Info { text: s("welcome home") });
    assert_eq!(decode("1019 X no such user", &table), Event::Error { text: s("no such user") });
    assert_eq!(decode("1007 X \"W3\"", &table), Event::ChannelReset);
    assert_eq!(decode("1020 X 5 wins", &table), Event::Unknown { raw: s("5 wins") });
    assert_eq!(decode("1022 X Bob", &table), Event::Unknown { raw: s("Bob") });
    assert_eq!(decode("1023 X Bob", &table), Event::Unknown { raw: s("Bob") });
}

#[test]
fn kinds_without_a_code_in_the_gateway_table_decode_from_a_custom_table() {
    let mut table = CodeTable::new();
    table.insert("2000", EventKind::Broadcast);
    table.insert("2001", EventKind::InGame);
    assert_eq!(
        decode("2000 X server restarts at noon", &table),
        Event::Broadcast { text: s("server restarts at noon") }
    );
    assert_eq!(decode("2001 X Bob", &table), Event::Unknown { raw: s("Bob") });
    assert_eq!(decode("1002 X Bob", &table), Event::Unknown { raw: s("Bob") });
}

#[test]
fn later_entry_replaces_earlier_one() {
    let mut table = CodeTable::new();
    table.insert("7", EventKind::Join);
    table.insert("7", EventKind::Leave);
    assert_eq!(table.kind_of("7"), EventKind::Leave);
    assert_eq!(table.kind_of("8"), EventKind::Unknown);
    assert_eq!(decode("7 X Al", &table), Event::Left { user: s("Al") });
}

#[test]
fn code_without_anything_else_is_malformed() {
    let table = CodeTable::standard();
    let event = decode("9999", &table);
    match &event {
        Event::Error { text } => assert!(text.contains("9999")),
        other => panic!("expected an error, got {:?}", other),
    }
    assert_eq!(event, Event::Error { text: s("Malformed message: 9999") });
}

#[test]
fn empty_line_is_malformed() {
    let table = CodeTable::standard();
    assert_eq!(decode("", &table), Event::Error { text: s("Malformed message: ") });
}

#[test]
fn unknown_code_with_tag_keeps_the_payload() {
    let table = CodeTable::standard();
    assert_eq!(decode("9999 X what is this", &table), Event::Unknown { raw: s("what is this") });
    assert_eq!(decode("9999 X", &table), Event::Unknown { raw: s("") });
}

#[test]
fn missing_tokens_are_reported_with_the_line() {
    let table = CodeTable::standard();
    assert_eq!(
        decode("1001 X", &table),
        Event::Error { text: s("Malformed USER message: 1001 X") }
    );
    assert_eq!(
        decode("1001 X Bob", &table),
        Event::Error { text: s("Malformed USER message (missing role code): 1001 X Bob") }
    );
    assert_eq!(
        decode("1002 X", &table),
        Event::Error { text: s("Malformed JOIN message: 1002 X") }
    );
    assert_eq!(
        decode("1003 X", &table),
        Event::Error { text: s("Malformed LEAVE message: 1003 X") }
    );
    assert_eq!(
        decode("1004 X", &table),
        Event::Error { text: s("Malformed WHISPER message: 1004 X") }
    );
    assert_eq!(
        decode("1010 X", &table),
        Event::Error { text: s("Malformed WHISPER_TO message: 1010 X") }
    );
    assert_eq!(
        decode("1005 X", &table),
        Event::Error { text: s("Malformed TALK message: 1005 X") }
    );
}

#[test]
fn payload_may_be_empty_where_no_token_is_required() {
    let table = CodeTable::standard();
    assert_eq!(decode("1018 X", &table), Event::Info { text: s("") });
    assert_eq!(decode("1019 X", &table), Event::Error { text: s("") });
    assert_eq!(decode("1007 X", &table), Event::ChannelReset);
    assert_eq!(decode("1005 X Bob", &table), Event::Talk { from: s("Bob"), text: s("") });
    assert_eq!(decode("1004 X Bob", &table), Event::Whisper { from: s("Bob"), text: s("") });
    assert_eq!(decode("1004 X Bob me", &table), Event::Whisper { from: s("Bob"), text: s("") });
}

#[test]
fn adjacent_spaces_give_empty_tokens() {
    let table = CodeTable::standard();
    assert_eq!(decode("1002 X ", &table), Event::Joined { user: s("") });
    assert_eq!(
        decode("1005 X Bob  two  spaces ", &table),
        Event::Talk { from: s("Bob"), text: s(" two  spaces ") }
    );
}

#[test]
fn info_with_topic_sets_channel_and_topic() {
    let table = CodeTable::standard();
    assert_eq!(
        decode("1018 INFO W3 topic: You can now .pub and .gopub from channel", &table),
        Event::ChannelTopicUpdate {
            channel: s("W3"),
            topic: s("You can now .pub and .gopub from channel"),
        }
    );
}

#[test]
fn topic_split_is_at_the_first_marker_and_trims_whitespace() {
    let table = CodeTable::standard();
    assert_eq!(
        decode("1018 X  \tW3  topic:  a topic: b \u{a0}", &table),
        Event::ChannelTopicUpdate { channel: s("W3"), topic: s("a topic: b") }
    );
    assert_eq!(
        decode("1018 X  topic: ", &table),
        Event::ChannelTopicUpdate { channel: s(""), topic: s("") }
    );
    assert_eq!(decode("1018 X topic: x", &table), Event::Info { text: s("topic: x") });
}

#[test]
fn text_in_other_scripts_is_cut_by_character() {
    let table = CodeTable::standard();
    assert_eq!(
        decode("1005 X Zoë grüße aus Köln", &table),
        Event::Talk { from: s("Zoë"), text: s("grüße aus Köln") }
    );
}

#[test]
fn kind_of_line_reads_the_first_token() {
    let table = CodeTable::standard();
    assert_eq!(kind_of_line("1007 CHANNEL \"W3\"", &table), EventKind::Channel);
    assert_eq!(kind_of_line("1007", &table), EventKind::Channel);
    assert_eq!(kind_of_line(" 1007", &table), EventKind::Unknown);
    assert_eq!(kind_of_line("", &table), EventKind::Unknown);
}

#[test]
fn role_codes() {
    assert_eq!(Role::from_code("0003"), Role::Admin);
    assert_eq!(Role::from_code("0010"), Role::Admin);
    assert_eq!(Role::from_code("0001"), Role::Moderator);
    assert_eq!(Role::from_code("0002"), Role::Moderator);
    assert_eq!(Role::from_code("0000"), Role::User);
    assert_eq!(Role::from_code("3"), Role::User);
    assert_eq!(Role::from_code(""), Role::User);
}
