//! The JSON answer of an agent hook.
//!
//! The answer is an object with a `hookSpecificOutput` object (the hook's event
//! name and the context to add) and, unless the system message is empty, a
//! top-level `systemMessage`. The library decides the keys, the nesting and
//! which system message is sent, if any; `serde_json` writes the object.
use vstd::prelude::*;

verus! {

/// The system message used when the caller gives none.
pub const DEFAULT_SYSTEM_MESSAGE: &'static str = "Context refreshed \u{2014} key rules were fading";

/// The compact JSON text that `serde_json` writes (`Display` of `Value`) for an
/// object made of the string entries `entries` (each key mapped to its string
/// value) and, under `nested_key`, the object of the string entries `nested`.
/// A later entry with the same key replaces an earlier one, and `nested_key`
/// comes last.
pub uninterp spec fn json_object_text(
    nested_key: Seq<char>,
    nested: Seq<(Seq<char>, Seq<char>)>,
    entries: Seq<(Seq<char>, Seq<char>)>,
) -> Seq<char>;

/// The views of key-value pairs of strings.
pub open spec fn pair_views(pairs: Seq<(&str, &str)>) -> Seq<(Seq<char>, Seq<char>)> {
    pairs.map_values(|p: (&str, &str)| (p.0@, p.1@))
}

/// `serde_json`: converts the string entries into a `serde_json::Map` of
/// `Value::String`s, puts under `nested_key` the object `Value` collected from
/// the `nested` pairs, and writes the resulting `Value::Object` with `Value`'s
/// `Display`. The result is `json_object_text` of the arguments.
#[verifier::external_body]
fn object_text(nested_key: &str, nested: Vec<(&str, &str)>, entries: Vec<(&str, &str)>) -> (text: String)
    ensures
        text@ == json_object_text(nested_key@, pair_views(nested@), pair_views(entries@)),
{
    let mut object: serde_json::Map<String, serde_json::Value> = entries
        .into_iter()
        .map(|(k, v)| (k.to_owned(), serde_json::Value::String(v.to_owned())))
        .collect();
    object.insert(nested_key.to_owned(), serde_json::Value::from_iter(nested));
    serde_json::Value::Object(object).to_string()
}

/// The system message that is sent: the one given, or the default one.
pub open spec fn effective_system_message(system_message: Option<&str>) -> Seq<char> {
    match system_message {
        Some(m) => m@,
        None => DEFAULT_SYSTEM_MESSAGE@,
    }
}

/// The system message that the answer carries: the effective one, unless it is
/// empty, in which case the answer carries none.
pub open spec fn answer_system_message(system_message: Option<&str>) -> Option<Seq<char>> {
    let message = effective_system_message(system_message);
    if message.len() == 0 {
        None
    } else {
        Some(message)
    }
}

/// The system message is sent whole: a given message that is not empty is
/// sent as it is, an empty one is not sent, and without one the (non-empty)
/// default message is sent.
pub proof fn lemma_system_message_is_sent_whole(system_message: Option<&str>)
    ensures
        system_message matches Some(m) ==> (m@.len() > 0 ==> answer_system_message(system_message)
            == Some(m@)),
        system_message matches Some(m) ==> (m@.len() == 0 ==> answer_system_message(system_message)
            is None),
        system_message is None ==> answer_system_message(system_message) == Some(
            DEFAULT_SYSTEM_MESSAGE@,
        ),
        DEFAULT_SYSTEM_MESSAGE@.len() > 0,
{
    reveal_strlit("Context refreshed \u{2014} key rules were fading");
}

/// Build the JSON response for an agent hook event.
///
/// Produces `hookSpecificOutput` with `hookEventName` and `additionalContext`
/// and, when the system message is not empty, a top-level `systemMessage`
/// field. When `None` is passed, the system message is [`DEFAULT_SYSTEM_MESSAGE`].
pub fn hook_output(hook_event: &str, context: &str, system_message: Option<&str>) -> (answer: String)
    ensures
        answer@ == json_object_text(
            "hookSpecificOutput"@,
            seq![("hookEventName"@, hook_event@), ("additionalContext"@, context@)],
            match answer_system_message(system_message) {
                Some(m) => seq![("systemMessage"@, m)],
                None => Seq::empty(),
            },
        ),
        system_message matches Some(m) ==> (m@.len() > 0 ==> answer@ == json_object_text(
            "hookSpecificOutput"@,
            seq![("hookEventName"@, hook_event@), ("additionalContext"@, context@)],
            seq![("systemMessage"@, m@)],
        )),
        system_message matches Some(m) ==> (m@.len() == 0 ==> answer@ == json_object_text(
            "hookSpecificOutput"@,
            seq![("hookEventName"@, hook_event@), ("additionalContext"@, context@)],
            Seq::empty(),
        )),
        system_message is None ==> answer@ == json_object_text(
            "hookSpecificOutput"@,
            seq![("hookEventName"@, hook_event@), ("additionalContext"@, context@)],
            seq![("systemMessage"@, DEFAULT_SYSTEM_MESSAGE@)],
        ),
{
    let message: &str = match system_message {
        Some(m) => m,
        None => DEFAULT_SYSTEM_MESSAGE,
    };
    let nested = vec![("hookEventName", hook_event), ("additionalContext", context)];
    let entries = if message.is_empty() {
        vec![]
    } else {
        vec![("systemMessage", message)]
    };
    proof {
        lemma_system_message_is_sent_whole(system_message);
        assert(pair_views(nested@) =~= seq![("hookEventName"@, hook_event@), ("additionalContext"@, context@)]);
        if message.is_empty() {
            assert(pair_views(entries@) =~= Seq::<(Seq<char>, Seq<char>)>::empty());
        } else {
            assert(pair_views(entries@) =~= seq![("systemMessage"@, message@)]);
        }
    }
    object_text("hookSpecificOutput", nested, entries)
}

} // verus!
