//! The JSON facts the library needs, obtained from `serde_json`.

use vstd::prelude::*;

verus! {

/// What `serde_json` finds in `text` under the member `key`, read as a string:
/// `None` when `text` is not a JSON document, `Some(None)` when the document
/// is not an object, has no such member, or the member is not a string, and
/// `Some(Some(s))` when the member is the string `s`.
pub uninterp spec fn json_member_string(text: Seq<char>, key: Seq<char>) -> Option<Option<Seq<char>>>;

/// What `serde_json` finds in `text` at `document[outer][list][index][member]`,
/// read as a string: `None` when `text` is not a JSON document, `Some(None)`
/// when one of the steps finds nothing of the right kind or the value found is
/// not a string, and `Some(Some(s))` when it is the string `s`.
pub uninterp spec fn json_listed_member_string(
    text: Seq<char>,
    outer: Seq<char>,
    list: Seq<char>,
    index: usize,
    member: Seq<char>,
) -> Option<Option<Seq<char>>>;

/// The compact text that `serde_json` prints for the JSON document `text`,
/// or `None` when `text` is not a JSON document.
pub uninterp spec fn json_reformat(text: Seq<char>) -> Option<Seq<char>>;

/// The view of a nested optional string.
pub open spec fn nested_view(r: Option<Option<String>>) -> Option<Option<Seq<char>>> {
    match r {
        None => None,
        Some(None) => Some(None),
        Some(Some(s)) => Some(Some(s@)),
    }
}

/// The view of an optional string.
pub open spec fn option_view(r: Option<String>) -> Option<Seq<char>> {
    match r {
        None => None,
        Some(s) => Some(s@),
    }
}

/// Parses `text` with `serde_json::from_str::<serde_json::Value>`, indexes the
/// value with `key` (serde_json's `Index` impl, which gives `Null` for what is
/// missing) and reads the result with `Value::as_str`. The contract claims only
/// that the outcome is the one named by `json_member_string` for these texts.
#[verifier::external_body]
pub(crate) fn member_string(text: &str, key: &str) -> (r: Option<Option<String>>)
    ensures
        nested_view(r) == json_member_string(text@, key@),
{
    let value: serde_json::Value = match serde_json::from_str(text) {
        Ok(value) => value,
        Err(_) => return None,
    };
    match value[key].as_str() {
        Some(s) => Some(Some(s.to_string())),
        None => Some(None),
    }
}

/// Parses `text` with `serde_json::from_str::<serde_json::Value>`, indexes the
/// value with `outer`, `list`, `index` and `member` in turn (serde_json's
/// `Index` impls, which give `Null` for what is missing) and reads the result
/// with `Value::as_str`. The contract claims only that the outcome is the one
/// named by `json_listed_member_string` for these arguments.
#[verifier::external_body]
pub(crate) fn listed_member_string(
    text: &str,
    outer: &str,
    list: &str,
    index: usize,
    member: &str,
) -> (r: Option<Option<String>>)
    ensures
        nested_view(r) == json_listed_member_string(text@, outer@, list@, index, member@),
{
    let value: serde_json::Value = match serde_json::from_str(text) {
        Ok(value) => value,
        Err(_) => return None,
    };
    match value[outer][list][index][member].as_str() {
        Some(s) => Some(Some(s.to_string())),
        None => Some(None),
    }
}

/// Parses `text` with `serde_json::from_str::<serde_json::Value>` and prints
/// the value again with its `Display` impl (through `to_string`).
/// The contract claims only that the outcome is the one named by
/// `json_reformat` for this text.
#[verifier::external_body]
pub(crate) fn reformat_json(text: &str) -> (r: Option<String>)
    ensures
        option_view(r) == json_reformat(text@),
{
    match serde_json::from_str::<serde_json::Value>(text) {
        Ok(value) => Some(value.to_string()),
        Err(_) => None,
    }
}

/// The views of a sequence of strings.
pub open spec fn string_views(v: Seq<String>) -> Seq<Seq<char>> {
    v.map_values(|s: String| s@)
}

/// The views of strings are taken element by element, and nested optional
/// strings keep their shape.
pub proof fn lemma_views_keep_shape(v: Seq<String>, r: Option<Option<String>>, o: Option<String>)
    ensures
        string_views(v).len() == v.len(),
        forall|i: int| 0 <= i < v.len() ==> #[trigger] string_views(v)[i] == v[i]@,
        r is None ==> nested_view(r) is None,
        r == Some(None::<String>) ==> nested_view(r) == Some(None::<Seq<char>>),
        r matches Some(Some(s)) ==> nested_view(r) == Some(Some(s@)),
        o is None ==> option_view(o) is None,
        o matches Some(s) ==> option_view(o) == Some(s@),
{
}

} // verus!
