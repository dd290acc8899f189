use breach::status::{parse_status, status_name, status_name_code, status_text};
use breach::{AttributeError, RawStatusCode, Status};

#[test]
fn parse_status_accepts_valid_codes() {
    assert_eq!(parse_status("403"), Some(403));
    assert_eq!(parse_status("100"), Some(100));
    assert_eq!(parse_status("599"), Some(599));
}

#[test]
fn parse_status_rejects_malformed_text() {
    assert_eq!(parse_status("099"), None);
    assert_eq!(parse_status("600"), None);
    assert_eq!(parse_status("40"), None);
    assert_eq!(parse_status("4040"), None);
    assert_eq!(parse_status("40x"), None);
    assert_eq!(parse_status(""), None);
    assert_eq!(parse_status("abc"), None);
}

#[test]
fn status_text_renders_three_digits() {
    assert_eq!(status_text(403), "403".to_string());
    assert_eq!(status_text(100), "100".to_string());
    assert_eq!(status_text(599), "599".to_string());
}

#[test]
fn status_name_code_knows_the_constants() {
    assert_eq!(status_name_code(&"FORBIDDEN".to_string()), Some(403));
    assert_eq!(status_name_code(&"NOT_FOUND".to_string()), Some(404));
    assert_eq!(status_name_code(&"INTERNAL_SERVER_ERROR".to_string()), Some(500));
    assert_eq!(status_name_code(&"IM_USED".to_string()), Some(226));
    assert_eq!(status_name_code(&"TEAPOT".to_string()), None);
}

#[test]
fn status_name_inverts_known_codes() {
    assert_eq!(status_name(403), Some("FORBIDDEN"));
    assert_eq!(status_name(511), Some("NETWORK_AUTHENTICATION_REQUIRED"));
    assert_eq!(status_name(420), None);
}

#[test]
fn status_parse_resolves_idents_and_literals() {
    let s = Status::parse(RawStatusCode::Ident("FORBIDDEN".to_string())).unwrap();
    assert_eq!(s.code, 403);
    let s = Status::parse(RawStatusCode::Lit(404)).unwrap();
    assert_eq!(s.code, 404);
}

#[test]
fn status_parse_rejects_invalid_tokens() {
    assert_eq!(
        Status::parse(RawStatusCode::Ident("NOT_A_STATUS".to_string())),
        Err(AttributeError::InvalidStatus)
    );
    assert_eq!(Status::parse(RawStatusCode::Lit(99)), Err(AttributeError::InvalidStatus));
    assert_eq!(Status::parse(RawStatusCode::Lit(600)), Err(AttributeError::InvalidStatus));
}

#[test]
fn status_as_ident_names_the_constant() {
    let s = Status::parse(RawStatusCode::Ident("FORBIDDEN".to_string())).unwrap();
    assert_eq!(s.as_ident(), Some("FORBIDDEN".to_string()));
    let s = Status::parse(RawStatusCode::Lit(404)).unwrap();
    assert_eq!(s.as_ident(), Some("NOT_FOUND".to_string()));
    let s = Status::parse(RawStatusCode::Lit(420)).unwrap();
    assert_eq!(s.as_ident(), None);
}
