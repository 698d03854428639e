use autoeval_cna::signin::{callback_outcome, CallbackError};

fn request(path: &str) -> String {
    format!("GET {path} HTTP/1.1\r\nHost: localhost\r\n\r\n")
}

#[test]
fn callback_returns_the_code_when_the_state_matches() {
    let r = callback_outcome(&request("/auth/microsoft/callback?code=abc%2F1&state=s1"), "s1");
    assert_eq!(r.unwrap(), "abc/1");
}

#[test]
fn callback_refuses_another_state() {
    let r = callback_outcome(&request("/cb?code=abc&state=other"), "s1");
    assert!(matches!(r, Err(CallbackError::StateMismatch)));
    let missing = callback_outcome(&request("/cb?code=abc"), "s1");
    assert!(matches!(missing, Err(CallbackError::StateMismatch)));
    assert_eq!(
        CallbackError::StateMismatch.message(),
        "microsoft login state did not match the local request"
    );
}

#[test]
fn callback_reports_the_error_description_or_a_fixed_message() {
    let r = callback_outcome(&request("/cb?state=s1&error=access_denied&error_description=User+cancelled"), "s1");
    match r {
        Err(CallbackError::Refused(m)) => assert_eq!(m, "access_denied"),
        other => panic!("{other:?}"),
    }
    let none = callback_outcome(&request("/cb?state=s1"), "s1");
    match none {
        Err(CallbackError::Refused(m)) => assert_eq!(m, "microsoft login did not return an authorization code"),
        other => panic!("{other:?}"),
    }
}

#[test]
fn callback_without_a_path_is_invalid() {
    assert!(matches!(callback_outcome("", "s"), Err(CallbackError::InvalidRequest)));
    assert!(matches!(callback_outcome("GET\r\n/cb?code=1", "s"), Err(CallbackError::InvalidRequest)));
    assert_eq!(CallbackError::InvalidRequest.message(), "invalid microsoft callback request");
}

#[test]
fn callback_path_that_is_no_url_is_refused() {
    assert!(matches!(callback_outcome("GET :bad HTTP/1.1\r\n", "s"), Err(CallbackError::InvalidUrl(_))));
}
