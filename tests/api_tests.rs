use lanpeer::api::{APIErrorTrait, GenericAPIError};

#[test]
fn codes_and_messages() {
    let cases = vec![
        (GenericAPIError::BadRequest("x".to_string()), 400, "Bad Request: x"),
        (GenericAPIError::Unauthorized("x".to_string()), 401, "Unauthorized: x"),
        (GenericAPIError::Forbidden("x".to_string()), 403, "Forbidden: x"),
        (GenericAPIError::NotFound("x".to_string()), 404, "Not Found: x"),
        (GenericAPIError::InternalError("x".to_string()), 500, "Internal Server Error: x"),
        (GenericAPIError::Timeout("x".to_string()), 504, "Timeout: x"),
        (GenericAPIError::ServiceUnavailable("x".to_string()), 503, "Service Unavailable: x"),
    ];
    for (e, code, msg) in cases {
        assert_eq!(e.error_code(), code);
        assert_eq!(e.error_message(), msg);
    }
}
