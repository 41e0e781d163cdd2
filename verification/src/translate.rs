//! Requests to the translation service and the reading of its answers.

use vstd::prelude::*;
use crate::json::{json_listed_member_string, listed_member_string, nested_view};

verus! {

/// The language that the menu and the keywords are written in.
pub open spec fn source_language() -> Seq<char> {
    "en"@
}

/// The language that the menu and the keywords are written in.
pub fn source_language_code() -> (code: String)
    ensures
        code@ == source_language(),
{
    String::from_str("en")
}

/// The views of a sequence of pairs of strings.
pub open spec fn pair_views(v: Seq<(String, String)>) -> Seq<(Seq<char>, Seq<char>)> {
    v.map_values(|p: (String, String)| (p.0@, p.1@))
}

/// The query parameters of a request that translates `text` from `from` to
/// `to` with the API key `key`.
pub open spec fn translation_query_spec(
    text: Seq<char>,
    from: Seq<char>,
    to: Seq<char>,
    key: Seq<char>,
) -> Seq<(Seq<char>, Seq<char>)> {
    seq![("q"@, text), ("source"@, from), ("target"@, to), ("key"@, key)]
}

/// The query parameters of a request that translates `text` from `from` to
/// `to` with the API key `key`.
pub fn translation_query(text: &str, from: &str, to: &str, key: &str) -> (query: Vec<
    (String, String),
>)
    ensures
        pair_views(query@) == translation_query_spec(text@, from@, to@, key@),
{
    let mut query: Vec<(String, String)> = Vec::new();
    query.push((String::from_str("q"), text.to_owned()));
    query.push((String::from_str("source"), from.to_owned()));
    query.push((String::from_str("target"), to.to_owned()));
    query.push((String::from_str("key"), key.to_owned()));
    assert(pair_views(query@) =~= translation_query_spec(text@, from@, to@, key@));
    query
}

/// Why no translation could be read from an answer of the service.
pub enum TranslateError {
    /// The answer is not a JSON document.
    NotJson,
    /// The answer holds no translated text where it is expected.
    NoTranslation,
}

/// What an answer of the service holds where the translated text stands: at
/// `answer["data"]["translations"][0]["translatedText"]`.
pub open spec fn translated_text_lookup(body: Seq<char>) -> Option<Option<Seq<char>>> {
    json_listed_member_string(body, "data"@, "translations"@, 0, "translatedText"@)
}

/// Whether `read` is what is read from an answer whose lookup gave `found`.
pub open spec fn translation_read(
    found: Option<Option<Seq<char>>>,
    read: Result<String, TranslateError>,
) -> bool {
    match found {
        None => read matches Err(TranslateError::NotJson),
        Some(None) => read matches Err(TranslateError::NoTranslation),
        Some(Some(text)) => read matches Ok(s) && s@ == text,
    }
}

/// The translation read from what the answer holds where the translated text
/// is expected.
pub fn translation_from_lookup(found: Option<Option<String>>) -> (read: Result<
    String,
    TranslateError,
>)
    ensures
        translation_read(nested_view(found), read),
{
    match found {
        None => Err(TranslateError::NotJson),
        Some(None) => Err(TranslateError::NoTranslation),
        Some(Some(text)) => Ok(text),
    }
}

/// The translation read from the body of an answer of the service.
pub fn translated_text(body: &str) -> (read: Result<String, TranslateError>)
    ensures
        translation_read(translated_text_lookup(body@), read),
{
    let found = listed_member_string(body, "data", "translations", 0, "translatedText");
    translation_from_lookup(found)
}

/// The request asks the service to translate the text exactly as given, from
/// `from` into `to`, with the API key `key`: four parameters, in this order, each
/// value passed unchanged.
pub proof fn lemma_translation_query_passes_values_unchanged(
    text: Seq<char>,
    from: Seq<char>,
    to: Seq<char>,
    key: Seq<char>,
)
    ensures
        translation_query_spec(text, from, to, key).len() == 4,
        translation_query_spec(text, from, to, key)[0] == ("q"@, text),
        translation_query_spec(text, from, to, key)[1] == ("source"@, from),
        translation_query_spec(text, from, to, key)[2] == ("target"@, to),
        translation_query_spec(text, from, to, key)[3] == ("key"@, key),
        forall|v: Seq<(String, String)>, i: int|
            0 <= i < v.len() ==> pair_views(v).len() == v.len() && #[trigger] pair_views(v)[i]
                == (v[i].0@, v[i].1@),
{
}

/// Reading an answer gives the text found at
/// `answer["data"]["translations"][0]["translatedText"]` exactly when a string
/// stands there, and otherwise says whether the answer was not JSON or held no
/// text there.
pub proof fn lemma_translation_read_is_the_text_found(
    body: Seq<char>,
    read: Result<String, TranslateError>,
)
    requires
        translation_read(translated_text_lookup(body), read),
    ensures
        read is Ok <==> json_listed_member_string(body, "data"@, "translations"@, 0, "translatedText"@) matches Some(Some(_)),
        read matches Ok(s) ==> json_listed_member_string(body, "data"@, "translations"@, 0, "translatedText"@) == Some(Some(s@)),
        read matches Err(TranslateError::NotJson) <==> json_listed_member_string(body, "data"@, "translations"@, 0, "translatedText"@) is None,
        source_language() == "en"@,
{
}

} // verus!
