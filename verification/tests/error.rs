use wasabi::web::error::{
    client_error, ApiError, Error, ResultExt, BAD_REQUEST, INTERNAL_SERVER_ERROR, NOT_FOUND,
    UNAUTHORIZED,
};
use wasabi::web::warp::into_rejection;

#[test]
fn api_errors_hold_what_they_are_made_of() {
    let plain = ApiError::new(NOT_FOUND, "Not found");
    assert_eq!(plain.status, 404);
    assert_eq!(plain.message, "Not found");
    assert_eq!(plain.code, None);

    let coded = ApiError::with_code(UNAUTHORIZED, "auth.invalid_credentials", "No").clone();
    assert_eq!(coded.status, 401);
    assert_eq!(coded.message, "No");
    assert_eq!(coded.code.as_deref(), Some("auth.invalid_credentials"));
}

#[test]
fn messages_are_joined_outermost_first() {
    let err = Error::new("root").context("middle").context("outer");
    assert_eq!(err.message(), "outer");
    assert_eq!(err.full_message(), "outer: middle: root");
    assert!(err.api_error().is_none());
}

#[test]
fn a_status_carries_all_messages_to_the_response() {
    let result: Result<(), Error> = Err(Error::new("root").context("outer"));
    let err = result.with_status(UNAUTHORIZED).unwrap_err();
    assert_eq!(err.message(), "outer: root");
    assert_eq!(err.full_message(), "outer: root: outer: root");
    let api = into_rejection(err);
    assert_eq!(api.status, UNAUTHORIZED);
    assert_eq!(api.message, "outer: root");
    assert_eq!(api.code, None);
}

#[test]
fn context_keeps_the_response() {
    let err = client_error("wrong").context("later");
    assert_eq!(err.message(), "later");
    let api = into_rejection(err);
    assert_eq!(api.status, BAD_REQUEST);
    assert_eq!(api.message, "wrong");
}

#[test]
fn the_outermost_status_wins() {
    let result: Result<u8, Error> = Err(client_error("wrong"));
    let api = into_rejection(result.with_status(UNAUTHORIZED).unwrap_err());
    assert_eq!(api.status, UNAUTHORIZED);
    assert_eq!(api.message, "wrong: wrong");
}

#[test]
fn results_without_an_error_are_left_alone() {
    let result: Result<u8, Error> = Ok(7);
    assert_eq!(result.mark_client_error().unwrap(), 7);
}

#[test]
fn errors_without_a_status_are_the_servers_fault() {
    let api = into_rejection(Error::new("root").context("outer"));
    assert_eq!(api.status, INTERNAL_SERVER_ERROR);
    assert_eq!(api.message, "outer: root");
}
