//! The one setting that outlives a session: whether the dark theme is on.
//! It is kept as a JSON document that holds `true` or `false`.
//!
//! Reading and writing the file is the caller's business; this module
//! turns the file's text into the setting and back, with `serde_json`.

use vstd::prelude::*;

verus! {

/// The error type of `serde_json`. Nothing is known of its inside.
#[verifier::external_type_specification]
#[verifier::external_body]
pub struct ExJsonError(serde_json::Error);

/// True for the four characters that JSON allows around a value: space,
/// line feed, tab and carriage return.
pub open spec fn is_json_space(c: char) -> bool {
    c == ' ' || c == '\n' || c == '\t' || c == '\r'
}

/// True when `s` holds JSON whitespace only.
pub open spec fn json_blank(s: Seq<char>) -> bool {
    forall|i: int| 0 <= i < s.len() ==> is_json_space(#[trigger] s[i])
}

/// The JSON spelling of a truth value.
pub open spec fn bool_word(b: bool) -> Seq<char> {
    if b {
        "true"@
    } else {
        "false"@
    }
}

/// True when `text` is a JSON document that holds exactly the truth value
/// `b`: the word for `b`, with nothing but JSON whitespace around it.
pub open spec fn json_holds(text: Seq<char>, b: bool) -> bool {
    exists|lead: Seq<char>, trail: Seq<char>|
        json_blank(lead) && json_blank(trail) && text == lead + bool_word(b) + trail
}

/// Calls `serde_json::from_str::<bool>`. Trusted, as the parser's source
/// shows: it skips JSON whitespace, reads the word `true` or `false`,
/// skips whitespace again and accepts only if the text ends there; every
/// other text is an error.
#[verifier::external_body]
fn parse_json_bool(text: &str) -> (r: Result<bool, serde_json::Error>)
    ensures
        r matches Ok(b) ==> json_holds(text@, b),
        r is Err ==> !json_holds(text@, true) && !json_holds(text@, false),
{
    serde_json::from_str::<bool>(text)
}

/// Calls `serde_json::to_string` on a truth value. Trusted, as the
/// serializer's source shows: what it writes for a truth value is the
/// word `true` or `false` and nothing else.
#[verifier::external_body]
fn write_json_bool(value: bool) -> (r: Result<String, serde_json::Error>)
    ensures
        r matches Ok(text) ==> text@ == bool_word(value),
{
    serde_json::to_string(&value)
}

/// The setting that a parsed preference file stands for: dark only if the
/// file held `true`; light if it held `false` or could not be parsed.
pub fn preference_of(parsed: &Result<bool, serde_json::Error>) -> (dark: bool)
    ensures
        dark == (*parsed matches Ok(b) && b),
{
    match parsed {
        Ok(is_dark) => *is_dark,
        Err(_) => false,
    }
}

/// Whether the dark theme is on, given the text of the preference file,
/// or `None` if there is no such file. Without a file, and with a file
/// that does not hold a truth value, the light theme is on.
pub fn load_theme_preference(content: Option<&str>) -> (dark: bool)
    ensures
        dark == (content matches Some(text) && json_holds(text@, true)),
{
    match content {
        Some(text) => {
            let parsed = parse_json_bool(text);
            proof {
                lemma_words_differ(text@);
            }
            preference_of(&parsed)
        },
        None => false,
    }
}

/// No text holds both truth values.
pub proof fn lemma_words_differ(text: Seq<char>)
    ensures
        !(json_holds(text, true) && json_holds(text, false)),
{
    reveal_strlit("true");
    reveal_strlit("false");
    if json_holds(text, true) && json_holds(text, false) {
        let (a, b) = choose|a: Seq<char>, b: Seq<char>|
            json_blank(a) && json_blank(b) && text == a + bool_word(true) + b;
        let (c, d) = choose|c: Seq<char>, d: Seq<char>|
            json_blank(c) && json_blank(d) && text == c + bool_word(false) + d;
        // The first character that is not whitespace is `t` in one reading
        // and `f` in the other.
        let t = a + "true"@ + b;
        let f = c + "false"@ + d;
        assert(t[a.len() as int] == 't');
        assert(f[c.len() as int] == 'f');
        if a.len() < c.len() {
            assert(f[a.len() as int] == c[a.len() as int]);
            assert(is_json_space(c[a.len() as int]));
        } else if c.len() < a.len() {
            assert(t[c.len() as int] == a[c.len() as int]);
            assert(is_json_space(a[c.len() as int]));
        }
    }
}

/// The text to keep for a written preference: what the serializer gave,
/// or nothing if it failed.
pub fn preference_text(written: Result<String, serde_json::Error>) -> (text: String)
    ensures
        match written {
            Ok(t) => text@ == t@,
            Err(_) => text@.len() == 0,
        },
{
    match written {
        Ok(t) => t,
        Err(_) => String::new(),
    }
}

/// The text of the preference file for the given setting. It is the JSON
/// word for the setting, or empty in case the serializer fails.
pub fn save_theme_preference(is_dark: bool) -> (text: String)
    ensures
        text@ == bool_word(is_dark) || text@.len() == 0,
{
    preference_text(write_json_bool(is_dark))
}

} // verus!
