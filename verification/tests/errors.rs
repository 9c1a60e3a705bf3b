use cas_tree::error::{mongo_error_check, ApiError, CustomResponse, ErrorKind, ErrorResponse};

fn response(status: u16, text: &str) -> CustomResponse {
    CustomResponse { status, body: ErrorResponse { error: text.to_string() } }
}

#[test]
fn default_messages_and_statuses() {
    assert_eq!(ApiError::InternalServerError(None).to_response(), response(500, "Internal Server Error"));
    assert_eq!(ApiError::NotFound(None).to_response(), response(404, "Not Found"));
    assert_eq!(ApiError::Unauthorized(None).to_response(), response(401, "Unauthorized"));
    assert_eq!(ApiError::Forbidden(None).to_response(), response(403, "Forbidden"));
    assert_eq!(ApiError::BadRequest(None).to_response(), response(400, "Bad Request"));
}

#[test]
fn own_message_wins_over_default() {
    let e = ApiError::NotFound(Some("File not found".to_string()));
    assert_eq!(e.to_response(), response(404, "File not found"));
    let e = ApiError::BadRequest(Some(String::new()));
    assert_eq!(e.to_response(), response(400, ""));
}

#[test]
fn kind_of_each_variant() {
    assert_eq!(ApiError::InternalServerError(None).kind(), ErrorKind::InternalServerError);
    assert_eq!(ApiError::NotFound(None).kind(), ErrorKind::NotFound);
    assert_eq!(ApiError::Unauthorized(None).kind(), ErrorKind::Unauthorized);
    assert_eq!(ApiError::Forbidden(None).kind(), ErrorKind::Forbidden);
    assert_eq!(ApiError::BadRequest(None).kind(), ErrorKind::BadRequest);
}

#[test]
fn with_message_builds_each_variant() {
    assert_eq!(
        ApiError::with_message(ErrorKind::Forbidden, "Permission denied"),
        ApiError::Forbidden(Some("Permission denied".to_string()))
    );
    assert_eq!(
        ApiError::with_message(ErrorKind::Unauthorized, "x"),
        ApiError::Unauthorized(Some("x".to_string()))
    );
    assert_eq!(
        ApiError::with_message(ErrorKind::InternalServerError, "y"),
        ApiError::InternalServerError(Some("y".to_string()))
    );
}

#[test]
fn change_message_keeps_the_kind() {
    let e = ApiError::Forbidden(None)._change_message("no".to_string());
    assert_eq!(e, ApiError::Forbidden(Some("no".to_string())));
    let e = ApiError::NotFound(Some("old".to_string()))._change_message("new".to_string());
    assert_eq!(e, ApiError::NotFound(Some("new".to_string())));
    let e = ApiError::InternalServerError(None)._change_message("a".to_string());
    assert_eq!(e, ApiError::InternalServerError(Some("a".to_string())));
    let e = ApiError::Unauthorized(None)._change_message("b".to_string());
    assert_eq!(e, ApiError::Unauthorized(Some("b".to_string())));
    let e = ApiError::BadRequest(None)._change_message("c".to_string());
    assert_eq!(e, ApiError::BadRequest(Some("c".to_string())));
}

#[test]
fn to_string_is_message_or_empty() {
    assert_eq!(ApiError::BadRequest(Some("Wrong password".to_string()))._to_string(), "Wrong password");
    assert_eq!(ApiError::BadRequest(None)._to_string(), "");
    assert_eq!(ApiError::NotFound(None)._to_string(), "");
    assert_eq!(ApiError::InternalServerError(Some("x".to_string()))._to_string(), "x");
}

#[test]
fn lookup_that_found_a_document() {
    let r: Result<u32, ApiError> = mongo_error_check(Ok(Some(7)), Some("File"));
    assert_eq!(r, Ok(7));
}

#[test]
fn lookup_that_found_nothing() {
    let r: Result<u32, ApiError> = mongo_error_check(Ok(None), Some("File"));
    assert_eq!(r, Err(ApiError::NotFound(Some("File not found".to_string()))));
    let r: Result<u32, ApiError> = mongo_error_check(Ok(None), None);
    assert_eq!(r, Err(ApiError::NotFound(Some("document not found".to_string()))));
}

#[test]
fn lookup_that_failed() {
    let r: Result<u32, ApiError> =
        mongo_error_check(Err(mongodb::error::Error::custom("connection lost")), Some("File"));
    assert_eq!(r, Err(ApiError::InternalServerError(Some("MongoDB error".to_string()))));
}
