use bnetchat::display::get_user_initials;
use bnetchat::richtext::{emoji, mentions_user, preview, render_rich_text, replace, Segment};

fn plain(text: &str) -> Segment {
    Segment::Plain(text.to_string())
}

fn link(text: &str) -> Segment {
    Segment::Link(text.to_string())
}

fn bold(text: &str) -> Segment {
    Segment::Bold(text.to_string())
}

#[test]
fn replace_goes_left_to_right_without_overlap() {
    assert_eq!(replace("aaa", "aa", "b"), "ba");
    assert_eq!(replace("abcabc", "bc", ""), "aa");
    assert_eq!(replace("abc", "x", "y"), "abc");
    assert_eq!(replace("abc", "", "y"), "abc");
    assert_eq!(replace("", "a", "b"), "");
    assert_eq!(replace("ab", "ab", "abab"), "abab");
    assert_eq!(replace("grüße", "ü", "ue"), "grueße");
}

#[test]
fn replace_agrees_with_the_standard_library() {
    for (text, from, to) in [
        ("hello :) world :)", ":)", "😊"),
        (":):):", ":)", "!"),
        ("a</3b<3", "<3", "❤️"),
        ("xxxx", "xx", "x"),
    ] {
        assert_eq!(replace(text, from, to), text.replace(from, to));
    }
}

#[test]
fn emoticons_become_emoji() {
    assert_eq!(emoji("hi :) :( :D ;) <3 :P :p"), "hi 😊 😢 😃 😉 ❤️ 😛 😛");
    assert_eq!(emoji("</3 <3"), "💔 ❤️");
    assert_eq!(emoji("nothing to see"), "nothing to see");
}

#[test]
fn plain_message_is_one_segment() {
    assert_eq!(render_rich_text("Bob: hello"), vec![plain("Bob: hello")]);
    assert_eq!(render_rich_text(""), vec![plain("")]);
    assert_eq!(render_rich_text("Bob: nice :)"), vec![plain("Bob: nice 😊")]);
}

#[test]
fn long_message_is_left_alone() {
    let long = format!("{} :) **bold**", "x".repeat(200));
    assert_eq!(render_rich_text(&long), vec![plain(&long)]);
    let just_short_enough = format!("{}:)", "x".repeat(198));
    assert_eq!(
        render_rich_text(&just_short_enough),
        vec![plain(&format!("{}😊", "x".repeat(198)))]
    );
}

#[test]
fn message_that_begins_with_an_address_carries_a_link() {
    assert_eq!(
        render_rich_text("https://example.org/a look here"),
        vec![link("https://example.org/a"), plain(" look here")]
    );
    assert_eq!(render_rich_text("http://example.org"), vec![link("http://example.org")]);
    assert_eq!(render_rich_text("http://example.org  "), vec![link("http://example.org")]);
    assert_eq!(
        render_rich_text("see http://example.org"),
        vec![plain("see http://example.org")]
    );
}

#[test]
fn first_pair_of_double_stars_makes_bold() {
    assert_eq!(
        render_rich_text("Bob: **very** good **indeed**"),
        vec![plain("Bob: "), bold("very"), plain(" good **indeed**")]
    );
    assert_eq!(render_rich_text("**all**"), vec![bold("all")]);
    assert_eq!(render_rich_text("****"), vec![bold("")]);
    assert_eq!(render_rich_text("a ** b"), vec![plain("a ** b")]);
    assert_eq!(render_rich_text("a *** b"), vec![plain("a *** b")]);
}

#[test]
fn initials_for_avatars() {
    assert_eq!(get_user_initials("alice"), "A");
    assert_eq!(get_user_initials("alice bob"), "AB");
    assert_eq!(get_user_initials("  alice \t bob carol"), "AB");
    assert_eq!(get_user_initials("alice "), "A");
    assert_eq!(get_user_initials(" alice"), " ");
    assert_eq!(get_user_initials(""), "?");
    assert_eq!(get_user_initials("ßeta"), "SS");
    assert_eq!(get_user_initials("émile zola"), "ÉZ");
}

#[test]
fn messages_about_the_user_are_mentions() {
    assert!(mentions_user("You whisper Bob: hi"));
    assert!(mentions_user("Bob whispers: hi"));
    assert!(mentions_user("Bob: Your turn"));
    assert!(!mentions_user("Bob: your turn"));
    assert!(!mentions_user(""));
}

#[test]
fn preview_is_cut_after_fifty_characters() {
    let fifty = "x".repeat(50);
    assert_eq!(preview(&fifty), fifty);
    assert_eq!(preview(&format!("{}y", fifty)), format!("{}...", fifty));
    assert_eq!(preview("short"), "short");
    let umlauts = "ü".repeat(51);
    assert_eq!(preview(&umlauts), format!("{}...", "ü".repeat(50)));
}
