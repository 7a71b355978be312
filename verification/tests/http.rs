use clank::http::{check_status, HttpError, HttpResponse};

#[test]
fn text_decodes_valid_utf8() {
    let r = HttpResponse { status: 200, body: "héllo".as_bytes().to_vec() };
    assert_eq!(r.text().ok(), Some("héllo"));
}

#[test]
fn text_rejects_invalid_utf8() {
    let r = HttpResponse { status: 200, body: vec![0x68, 0xff, 0x69] };
    assert!(r.text().is_err());
}

#[test]
fn http_error_messages() {
    assert_eq!(HttpError::Status(404).message(), "HTTP error status: 404");
    assert_eq!(HttpError::Transport("refused".to_owned()).message(), "HTTP transport error: refused");
}

#[test]
fn check_status_accepts_only_success() {
    assert!(matches!(check_status(200), Ok(200)));
    assert!(matches!(check_status(299), Ok(299)));
    assert!(matches!(check_status(199), Err(HttpError::Status(199))));
    assert!(matches!(check_status(404), Err(HttpError::Status(404))));
    assert!(matches!(check_status(301), Err(HttpError::Status(301))));
}
