//! Declarations, named results and thin wrappers for the JSON work the
//! library hands to serde_json. The values themselves are opaque here;
//! what each call produces is fixed by an uninterpreted name, so the
//! callers' contracts can be exact without restating serde_json.
use vstd::prelude::*;

verus! {

#[verifier::external_type_specification]
#[verifier::external_body]
pub struct ExValue(serde_json::Value);

/// The compact rendering of the first JSON value at the start of the
/// text, if the text starts with one (after optional whitespace): a
/// name for what serde_json's parser and renderer produce, fixed by the
/// text alone.
pub uninterp spec fn first_json_rendering(s: Seq<char>) -> Option<Seq<char>>;

/// Relies on serde_json's StreamDeserializer (Deserializer::from_str,
/// into_iter, next) and on Value's Display: parses one JSON value at
/// the start of `s`, if the text starts with one, ignoring whatever
/// follows it, and renders the value back as compact JSON text. The
/// result depends on the text alone.
#[verifier::external_body]
pub(crate) fn parse_and_render(s: &str) -> (r: Option<String>)
    ensures
        (match r {
            Some(text) => Some(text@),
            None => None,
        }) == first_json_rendering(s@),
{
    match serde_json::Deserializer::from_str(s).into_iter::<serde_json::Value>().next() {
        Some(Ok(v)) => Some(v.to_string()),
        Some(Err(_)) => None,
        None => None,
    }
}

/// The text at an Ollama chat response's usual path, `message.content`,
/// if the value holds a string there: fixed by the value alone.
pub uninterp spec fn ollama_content_of(v: serde_json::Value) -> Option<Seq<char>>;

/// Relies on Value's Index (which yields null for missing members) and
/// Value::as_str: the string under `message.content`, if any.
#[verifier::external_body]
pub(crate) fn ollama_content(v: &serde_json::Value) -> (r: Option<String>)
    ensures
        (match r {
            Some(text) => Some(text@),
            None => None,
        }) == ollama_content_of(*v),
{
    match v["message"]["content"].as_str() {
        Some(text) => Some(text.to_owned()),
        None => None,
    }
}

/// The text at an OpenAI-style chat response's usual path,
/// `choices[0].message.content`, if the value holds a string there:
/// fixed by the value alone.
pub uninterp spec fn openai_content_of(v: serde_json::Value) -> Option<Seq<char>>;

/// Relies on Value's Index (which yields null for missing members or
/// indices) and Value::as_str: the string under
/// `choices[0].message.content`, if any.
#[verifier::external_body]
pub(crate) fn openai_content(v: &serde_json::Value) -> (r: Option<String>)
    ensures
        (match r {
            Some(text) => Some(text@),
            None => None,
        }) == openai_content_of(*v),
{
    match v["choices"][0]["message"]["content"].as_str() {
        Some(text) => Some(text.to_owned()),
        None => None,
    }
}

/// The text at an Anthropic chat response's usual path,
/// `content[0].text`, if the value holds a string there: fixed by the
/// value alone.
pub uninterp spec fn anthropic_content_of(v: serde_json::Value) -> Option<Seq<char>>;

/// Relies on Value's Index (which yields null for missing members or
/// indices) and Value::as_str: the string under `content[0].text`, if
/// any.
#[verifier::external_body]
pub(crate) fn anthropic_content(v: &serde_json::Value) -> (r: Option<String>)
    ensures
        (match r {
            Some(text) => Some(text@),
            None => None,
        }) == anthropic_content_of(*v),
{
    match v["content"][0]["text"].as_str() {
        Some(text) => Some(text.to_owned()),
        None => None,
    }
}

} // verus!
