use pos_backend::auth::{auth_step_from_tokeninfo, select_employee, tokeninfo_url, AuthStep};
use pos_backend::status::write_status;

#[test]
fn tokeninfo_url_carries_the_token() {
    assert_eq!(tokeninfo_url("abc.def"), "https://oauth2.googleapis.com/tokeninfo?id_token=abc.def");
}

#[test]
fn tokeninfo_with_an_email_leads_to_a_lookup() {
    let body = r#"{"iss": "accounts.google.com", "email": "chef@example.com", "email_verified": "true"}"#;
    match auth_step_from_tokeninfo(body) {
        Some(AuthStep::FindEmployee(email)) => assert_eq!(email, "chef@example.com"),
        _ => panic!("the answer names an address"),
    }
}

#[test]
fn tokeninfo_without_an_email_is_refused_with_401() {
    for body in [r#"{"error": "invalid_token"}"#, r#"{"email": 42}"#, "[1, 2]"] {
        match auth_step_from_tokeninfo(body) {
            Some(AuthStep::Reject(e)) => assert_eq!(e.status, 401),
            _ => panic!("the answer names no address"),
        }
    }
}

#[test]
fn tokeninfo_that_is_not_json_gives_no_decision() {
    assert!(auth_step_from_tokeninfo("Bad Gateway").is_none());
}

#[test]
fn first_employee_found_is_signed_in() {
    assert!(matches!(select_employee(vec!["ann", "bob"]), Ok("ann")));
    match select_employee(Vec::<&str>::new()) {
        Err(e) => assert_eq!(e.status, 401),
        Ok(_) => panic!("nobody was found"),
    }
}

#[test]
fn writes_are_answered_200_or_400() {
    assert_eq!(write_status(true), 200);
    assert_eq!(write_status(false), 400);
}
