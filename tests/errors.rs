use megaphone::error::MegaphoneError;

#[test]
fn error_codes_and_statuses() {
    let cases = vec![
        (MegaphoneError::NotFound, "NOT_FOUND", 404u16),
        (MegaphoneError::Busy, "BUSY", 409),
        (MegaphoneError::BadRequest(String::from("x")), "BAD_REQUEST", 400),
        (MegaphoneError::Timeout { secs: 10 }, "TIMEOUT", 503),
        (MegaphoneError::Skipped, "SKIPPED", 503),
        (MegaphoneError::InternalError(String::from("x")), "INTERNAL_SERVER_ERROR", 500),
    ];
    for (e, code, status) in cases {
        assert_eq!(e.code(), code);
        assert_eq!(e.http_status(), status);
    }
}
