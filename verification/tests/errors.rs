use ryu_social::error::{found, ApiError};

#[test]
fn statuses_and_codes_are_stable() {
    assert_eq!(ApiError::not_found("draft").status(), 404);
    assert_eq!(ApiError::not_found("draft").code(), "not_found");
    assert_eq!(ApiError::not_implemented("publish").status(), 501);
    assert_eq!(ApiError::conflict("x").status(), 409);
    assert_eq!(ApiError::upstream("x").status(), 502);
    assert_eq!(ApiError::bad_request("x").status(), 400);
    assert_eq!(ApiError::Internal("x".into()).status(), 500);
    assert_eq!(ApiError::bad_request("x").code(), "bad_request");
    assert_eq!(ApiError::conflict("x").code(), "conflict");
    assert_eq!(ApiError::not_implemented("x").code(), "not_implemented");
    assert_eq!(ApiError::upstream("x").code(), "upstream_error");
    assert_eq!(ApiError::Internal("x".into()).code(), "internal_error");
}

#[test]
fn internal_errors_do_not_leak_their_cause_to_the_client() {
    let err = ApiError::Internal("SELECT * FROM secrets failed".to_string());
    assert_eq!(err.client_message(), "internal error");
    assert_eq!(err.message(), "SELECT * FROM secrets failed");
    assert_eq!(ApiError::not_found("draft").client_message(), "draft not found");
    assert_eq!(
        ApiError::not_implemented("publish").client_message(),
        "publish is not implemented yet"
    );
}

#[test]
fn a_missing_row_is_not_found() {
    assert_eq!(found(Some(3), "row").unwrap(), 3);
    assert_eq!(found::<u8>(None, "row").unwrap_err().message(), "row not found");
}
