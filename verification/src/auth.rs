//! Signing an employee in from a Google identity token.
//!
//! The server asks Google's token-info endpoint about the token, reads the
//! e-mail address from the answer and looks the employee up by it. The
//! requests are made by the caller; this module takes the decisions.

use vstd::prelude::*;
use crate::json::{json_member_string, member_string};

verus! {

/// The refusal of a sign-in, with the HTTP status that answers it.
pub struct FromRequestError {
    pub status: u16,
}

/// The status that answers a refused sign-in: 401 Unauthorized.
pub open spec fn unauthorized_status() -> u16 {
    401
}

impl FromRequestError {
    /// The refusal of a sign-in whose token names no known employee.
    pub fn unauthorized() -> (e: FromRequestError)
        ensures
            e.status == unauthorized_status(),
    {
        FromRequestError { status: 401 }
    }
}

/// The address of Google's token-info endpoint for `token`.
pub open spec fn tokeninfo_url_spec(token: Seq<char>) -> Seq<char> {
    "https://oauth2.googleapis.com/tokeninfo?id_token="@ + token
}

/// The address that is asked about `token`.
pub fn tokeninfo_url(token: &str) -> (url: String)
    ensures
        url@ == tokeninfo_url_spec(token@),
{
    let mut url = String::from_str("https://oauth2.googleapis.com/tokeninfo?id_token=");
    url.append(token);
    url
}

/// What to do once the token-info answer has been read.
pub enum AuthStep {
    /// Look the employee up by this e-mail address.
    FindEmployee(String),
    /// Refuse the request.
    Reject(FromRequestError),
}

/// The member of a token-info answer that holds the e-mail address.
pub open spec fn email_member() -> Seq<char> {
    "email"@
}

/// Whether `step` is the decision owed to the lookup result `found`:
/// no decision (`None`) when the answer is not JSON, a lookup by the address
/// when the answer holds one as a string, and a refusal with 401 otherwise.
pub open spec fn auth_step_matches(found: Option<Option<Seq<char>>>, step: Option<AuthStep>) -> bool {
    match found {
        None => step is None,
        Some(None) => step matches Some(AuthStep::Reject(e)) && e.status == unauthorized_status(),
        Some(Some(email)) => step matches Some(AuthStep::FindEmployee(x)) && x@ == email,
    }
}

/// The decision taken on what the answer holds at its `email` member.
pub fn auth_step_from_email(found: Option<Option<String>>) -> (step: Option<AuthStep>)
    ensures
        auth_step_matches(crate::json::nested_view(found), step),
{
    match found {
        None => None,
        Some(None) => Some(AuthStep::Reject(FromRequestError::unauthorized())),
        Some(Some(email)) => Some(AuthStep::FindEmployee(email)),
    }
}

/// The decision taken on the body of a token-info answer. `None` when the body
/// is not JSON.
pub fn auth_step_from_tokeninfo(body: &str) -> (step: Option<AuthStep>)
    ensures
        auth_step_matches(json_member_string(body@, email_member()), step),
{
    let found = member_string(body, "email");
    auth_step_from_email(found)
}

/// The employee signed in from the rows found for the address: the first row,
/// or a refusal with 401 when there is none.
pub fn select_employee<T>(rows: Vec<T>) -> (signed_in: Result<T, FromRequestError>)
    ensures
        rows@.len() == 0 ==> (signed_in matches Err(e) && e.status == unauthorized_status()),
        rows@.len() > 0 ==> signed_in == Ok::<T, FromRequestError>(rows@[0]),
{
    let mut rows = rows;
    if rows.len() == 0 {
        return Err(FromRequestError::unauthorized());
    }
    let first = rows.remove(0);
    Ok(first)
}

/// Signing in asks Google's token-info endpoint about the token itself, reads
/// the address from the answer's `email` member, and refuses with 401 whatever
/// answer holds no address there; an address found is looked up as it is.
pub proof fn lemma_sign_in_decisions(token: Seq<char>, body: Seq<char>, step: Option<AuthStep>)
    requires
        auth_step_matches(json_member_string(body, email_member()), step),
    ensures
        tokeninfo_url_spec(token) == "https://oauth2.googleapis.com/tokeninfo?id_token="@ + token,
        json_member_string(body, "email"@) is None ==> step is None,
        json_member_string(body, "email"@) == Some(None::<Seq<char>>) ==> (step matches Some(
            AuthStep::Reject(e),
        ) && e.status == 401),
        forall|email: Seq<char>|
            json_member_string(body, "email"@) == Some(Some(email)) ==> (step matches Some(
                AuthStep::FindEmployee(x),
            ) && x@ == email),
{
}

} // verus!
