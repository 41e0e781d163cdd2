//! The translated keywords of the ordering screen.
//!
//! A request names a language. When the cache holds the keywords in that
//! language they are served from it; otherwise the caller translates the
//! English keywords, and the JSON object built from the translations is
//! cached under the language and served.

use vstd::prelude::*;
use crate::cache::TranslationCache;
use crate::json::{json_reformat, reformat_json, string_views};
use crate::json_text::{escape_json_string, json_escaped};

verus! {

/// The English keywords, in the order in which the translations are expected.
pub open spec fn keyword_phrases_spec() -> Seq<Seq<char>> {
    seq![
        "All"@,
        "Your Order"@,
        "Pay"@,
        "Clear All"@,
        "Tax"@,
        "Removed"@,
        "Order Created"@,
        "Order Cleared"@,
    ]
}

/// The English keywords, in the order in which the translations are expected.
pub fn keyword_phrases() -> (phrases: Vec<String>)
    ensures
        string_views(phrases@) == keyword_phrases_spec(),
{
    let mut phrases: Vec<String> = Vec::new();
    phrases.push(String::from_str("All"));
    phrases.push(String::from_str("Your Order"));
    phrases.push(String::from_str("Pay"));
    phrases.push(String::from_str("Clear All"));
    phrases.push(String::from_str("Tax"));
    phrases.push(String::from_str("Removed"));
    phrases.push(String::from_str("Order Created"));
    phrases.push(String::from_str("Order Cleared"));
    assert(string_views(phrases@) =~= keyword_phrases_spec());
    phrases
}

/// One member of the keywords object: the key in quotes, a colon, and the
/// escaped translation in quotes, on a line of its own.
pub open spec fn keyword_member(name: Seq<char>, text: Seq<char>) -> Seq<char> {
    "\n            \""@ + name + "\": \""@ + json_escaped(text) + "\""@
}

/// The JSON text written for the translations `t` of the keywords, before it
/// is put in compact form: an object with one string member per keyword, each
/// translation escaped as the body of a JSON string.
pub open spec fn keywords_template(t: Seq<Seq<char>>) -> Seq<char> {
    "{"@ + keyword_member("all"@, t[0]) + ","@ + keyword_member("order"@, t[1]) + ","@
        + keyword_member("pay"@, t[2]) + ","@ + keyword_member("clear"@, t[3]) + ","@
        + keyword_member("tax"@, t[4]) + ","@ + keyword_member("removed"@, t[5]) + ","@
        + keyword_member("created"@, t[6]) + ","@ + keyword_member("cleared"@, t[7]) + "\n    "@
        + "}"@
}

fn member_text(name: &str, text: &str) -> (member: String)
    ensures
        member@ == keyword_member(name@, text@),
{
    let mut member = String::from_str("\n            \"");
    member.append(name);
    member.append("\": \"");
    member.append(escape_json_string(text).as_str());
    member.append("\"");
    member
}

/// The JSON text written for the translations of the keywords.
pub fn keywords_text(translations: &Vec<String>) -> (text: String)
    requires
        translations@.len() == 8,
    ensures
        text@ == keywords_template(string_views(translations@)),
{
    let ghost t = string_views(translations@);
    let mut text = String::from_str("{");
    text.append(member_text("all", translations[0].as_str()).as_str());
    text.append(",");
    text.append(member_text("order", translations[1].as_str()).as_str());
    text.append(",");
    text.append(member_text("pay", translations[2].as_str()).as_str());
    text.append(",");
    text.append(member_text("clear", translations[3].as_str()).as_str());
    text.append(",");
    text.append(member_text("tax", translations[4].as_str()).as_str());
    text.append(",");
    text.append(member_text("removed", translations[5].as_str()).as_str());
    text.append(",");
    text.append(member_text("created", translations[6].as_str()).as_str());
    text.append(",");
    text.append(member_text("cleared", translations[7].as_str()).as_str());
    text.append("\n    ");
    text.append("}");
    assert(text@ =~= keywords_template(t));
    text
}

/// What serving the keywords in a language takes.
pub enum KeywordsStep {
    /// The keywords are cached: serve this JSON text.
    Cached(String),
    /// The keywords are not cached: translate these English phrases, in order,
    /// and finish with the translations.
    Translate(Vec<String>),
}

/// Why the keywords could not be served.
pub enum KeywordsError {
    /// `serde_json` refused the text built from the translations.
    NotJson,
}

/// The first step of serving the keywords in `language`.
pub fn begin_keywords(cache: &TranslationCache, language: &str) -> (step: KeywordsStep)
    ensures
        match step {
            KeywordsStep::Cached(text) => cache@.contains_key(language@) && text@
                == cache@[language@],
            KeywordsStep::Translate(phrases) => !cache@.contains_key(language@) && string_views(
                phrases@,
            ) == keyword_phrases_spec(),
        },
{
    match cache.get(language) {
        Some(text) => KeywordsStep::Cached(text),
        None => KeywordsStep::Translate(keyword_phrases()),
    }
}

/// The cache once the keywords in `language` were built from the
/// translations `t`: the compact JSON text is cached under the language when
/// the text is JSON, and nothing changes otherwise.
pub open spec fn keywords_cached(
    cache: Map<Seq<char>, Seq<char>>,
    language: Seq<char>,
    t: Seq<Seq<char>>,
) -> Map<Seq<char>, Seq<char>> {
    match json_reformat(keywords_template(t)) {
        Some(out) => cache.insert(language, out),
        None => cache,
    }
}

/// Caches and returns the compact JSON text of the keywords in `language`,
/// given as `reformatted`; `None` stands for a text that was not JSON, and
/// leaves the cache as it was.
pub fn record_keywords(
    cache: &mut TranslationCache,
    language: String,
    reformatted: Option<String>,
) -> (served: Result<String, KeywordsError>)
    ensures
        match reformatted {
            Some(out) => {
                &&& served matches Ok(text) && text@ == out@
                &&& final(cache)@ == old(cache)@.insert(language@, out@)
            },
            None => {
                &&& served matches Err(KeywordsError::NotJson)
                &&& final(cache)@ == old(cache)@
            },
        },
{
    match reformatted {
        Some(out) => {
            cache.insert(language, out.clone());
            Ok(out)
        },
        None => Err(KeywordsError::NotJson),
    }
}

/// The last step of serving the keywords in `language`, given the
/// translations of the English phrases in order: the JSON text is built, put
/// in compact form, cached under the language and returned.
pub fn finish_keywords(
    cache: &mut TranslationCache,
    language: String,
    translations: &Vec<String>,
) -> (served: Result<String, KeywordsError>)
    requires
        translations@.len() == 8,
    ensures
        match json_reformat(keywords_template(string_views(translations@))) {
            Some(out) => served matches Ok(text) && text@ == out,
            None => served matches Err(KeywordsError::NotJson),
        },
        final(cache)@ == keywords_cached(old(cache)@, language@, string_views(translations@)),
{
    let text = keywords_text(translations);
    let reformatted = reformat_json(text.as_str());
    record_keywords(cache, language, reformatted)
}

/// Keywords that were built are served from the cache: once they were built in
/// a language from translations whose text is JSON, the cache holds their
/// compact text under that language.
pub proof fn lemma_keywords_served_from_cache(
    cache: Map<Seq<char>, Seq<char>>,
    language: Seq<char>,
    t: Seq<Seq<char>>,
)
    requires
        json_reformat(keywords_template(t)) is Some,
    ensures
        keywords_cached(cache, language, t).contains_key(language),
        keywords_cached(cache, language, t)[language] == json_reformat(keywords_template(t))->0,
{
}

/// The keywords object pairs each key with the translation of its phrase, in
/// this order: `all` with "All", `order` with "Your Order", `pay` with "Pay",
/// `clear` with "Clear All", `tax` with "Tax", `removed` with "Removed",
/// `created` with "Order Created", `cleared` with "Order Cleared"; members are
/// separated by commas, each translation escaped between quotes.
pub proof fn lemma_keywords_pair_each_key_with_its_phrase(t: Seq<Seq<char>>)
    requires
        t.len() == 8,
    ensures
        keyword_phrases_spec() == seq![
            "All"@,
            "Your Order"@,
            "Pay"@,
            "Clear All"@,
            "Tax"@,
            "Removed"@,
            "Order Created"@,
            "Order Cleared"@,
        ],
        keywords_template(t) == "{"@ + keyword_member("all"@, t[0]) + ","@ + keyword_member(
            "order"@,
            t[1],
        ) + ","@ + keyword_member("pay"@, t[2]) + ","@ + keyword_member("clear"@, t[3]) + ","@
            + keyword_member("tax"@, t[4]) + ","@ + keyword_member("removed"@, t[5]) + ","@
            + keyword_member("created"@, t[6]) + ","@ + keyword_member("cleared"@, t[7])
            + "\n    "@ + "}"@,
        forall|name: Seq<char>, text: Seq<char>|
            #[trigger] keyword_member(name, text) == "\n            \""@ + name + "\": \""@
                + json_escaped(text) + "\""@,
{
}

} // verus!
