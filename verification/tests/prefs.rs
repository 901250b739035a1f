use bnetchat::prefs::{load_theme_preference, preference_of, preference_text, save_theme_preference};

#[test]
fn preference_is_read_from_json() {
    assert!(load_theme_preference(Some("true")));
    assert!(!load_theme_preference(Some("false")));
    assert!(load_theme_preference(Some(" \r\n\ttrue \n")));
}

#[test]
fn anything_else_means_the_light_theme() {
    assert!(!load_theme_preference(None));
    assert!(!load_theme_preference(Some("")));
    assert!(!load_theme_preference(Some("1")));
    assert!(!load_theme_preference(Some("\"true\"")));
    assert!(!load_theme_preference(Some("True")));
    assert!(!load_theme_preference(Some("true false")));
    assert!(!load_theme_preference(Some("truex")));
    assert!(!load_theme_preference(Some("\u{a0}true")));
    assert!(!load_theme_preference(Some("[true]")));
}

#[test]
fn preference_is_written_as_json() {
    assert_eq!(save_theme_preference(true), "true");
    assert_eq!(save_theme_preference(false), "false");
}

#[test]
fn written_preference_reads_back() {
    for dark in [true, false] {
        let text = save_theme_preference(dark);
        assert_eq!(load_theme_preference(Some(&text)), dark);
    }
}

#[test]
fn parsed_and_written_results_are_mapped() {
    assert!(preference_of(&serde_json::from_str::<bool>("true")));
    assert!(!preference_of(&serde_json::from_str::<bool>("false")));
    assert!(!preference_of(&serde_json::from_str::<bool>("nonsense")));
    assert_eq!(preference_text(Ok("true".to_string())), "true");
    assert_eq!(preference_text(serde_json::from_str::<String>("nonsense")), "");
}
