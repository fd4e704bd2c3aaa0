use basicauth::{decode_to_creds, encode_basic, resolve, split_credentials};
use basicauth::{AuthOutcome, BasicAuth, BasicAuthError};

#[test]
fn decode_to_creds_check() {
    // Tests: name:password
    assert_eq!(
        decode_to_creds("bmFtZTpwYXNzd29yZA=="),
        Some(("name".to_string(), "password".to_string()))
    );
    // Tests: name:pass:word
    assert_eq!(
        decode_to_creds("bmFtZTpwYXNzOndvcmQ="),
        Some(("name".to_string(), "pass:word".to_string()))
    );
    // Tests: emptypass:
    assert_eq!(
        decode_to_creds("ZW1wdHlwYXNzOg=="),
        Some(("emptypass".to_string(), "".to_string()))
    );
    // Tests: :
    assert_eq!(
        decode_to_creds("Og=="),
        Some(("".to_string(), "".to_string()))
    );
    assert_eq!(decode_to_creds("bm9jb2xvbg=="), None);
}

#[test]
fn new_accepts_valid_header() {
    let auth = BasicAuth::new("Basic bmFtZTpwYXNzd29yZA==").unwrap();
    assert_eq!(auth.username, "name");
    assert_eq!(auth.password, "password");
}

#[test]
fn new_preserves_colons_in_password() {
    let auth = BasicAuth::new("Basic bmFtZTpwYXNzOndvcmQ=").unwrap();
    assert_eq!(auth.username, "name");
    assert_eq!(auth.password, "pass:word");
}

#[test]
fn new_accepts_empty_username_and_password() {
    let auth = BasicAuth::new("Basic Og==").unwrap();
    assert_eq!(auth.username, "");
    assert_eq!(auth.password, "");

    let auth = BasicAuth::new("Basic ZW1wdHlwYXNzOg==").unwrap();
    assert_eq!(auth.username, "emptypass");
    assert_eq!(auth.password, "");
}

#[test]
fn new_rejects_short_values() {
    assert_eq!(BasicAuth::new(""), None);
    assert_eq!(BasicAuth::new("Basic"), None);
    assert_eq!(BasicAuth::new("Basic "), None);
}

#[test]
fn new_rejects_wrong_prefix() {
    assert_eq!(BasicAuth::new("basic bmFtZTpwYXNzd29yZA=="), None);
    assert_eq!(BasicAuth::new("BASIC bmFtZTpwYXNzd29yZA=="), None);
    assert_eq!(BasicAuth::new("Bearer bmFtZTpwYXNzd29yZA=="), None);
    assert_eq!(BasicAuth::new("Basic\tbmFtZTpwYXNzd29yZA=="), None);
}

#[test]
fn new_rejects_invalid_base64() {
    assert_eq!(BasicAuth::new("Basic !!!not-base64!!!"), None);
}

#[test]
fn new_rejects_payload_without_colon() {
    assert_eq!(BasicAuth::new("Basic bm9jb2xvbg=="), None);
}

#[test]
fn new_rejects_non_utf8_payload() {
    // "/w==" is the base64 of the single byte 0xFF; "//4=" of 0xFF 0xFE.
    // Neither byte sequence is valid UTF-8.
    assert_eq!(BasicAuth::new("Basic /w=="), None);
    assert_eq!(BasicAuth::new("Basic //4="), None);
    assert_eq!(decode_to_creds("/w=="), None);
}

#[test]
fn split_credentials_takes_first_colon() {
    assert_eq!(
        split_credentials("name:pass:word"),
        Some(("name".to_string(), "pass:word".to_string()))
    );
    assert_eq!(
        split_credentials(":"),
        Some(("".to_string(), "".to_string()))
    );
    assert_eq!(split_credentials("nocolon"), None);
    assert_eq!(split_credentials(""), None);
}

#[test]
fn resolve_zero_headers_is_not_attempted() {
    let headers: Vec<String> = vec![];
    assert_eq!(resolve(&headers), AuthOutcome::NotAttempted);
}

#[test]
fn resolve_one_valid_header_authenticates() {
    let headers = vec!["Basic bmFtZTpwYXNzd29yZA==".to_string()];
    assert_eq!(
        resolve(&headers),
        AuthOutcome::Authenticated(BasicAuth {
            username: "name".to_string(),
            password: "password".to_string(),
        })
    );
}

#[test]
fn resolve_one_bad_header_is_invalid() {
    let headers = vec!["Bearer something".to_string()];
    assert_eq!(
        resolve(&headers),
        AuthOutcome::Rejected(BasicAuthError::Invalid)
    );
}

#[test]
fn resolve_two_headers_is_bad_count() {
    // Two headers are rejected even when each would decode on its own.
    let headers = vec![
        "Basic bmFtZTpwYXNzd29yZA==".to_string(),
        "Basic Og==".to_string(),
    ];
    assert_eq!(
        resolve(&headers),
        AuthOutcome::Rejected(BasicAuthError::BadCount)
    );
}

#[test]
fn encode_basic_builds_exact_header() {
    assert_eq!(encode_basic("name", "password"), "Basic bmFtZTpwYXNzd29yZA==");
    assert_eq!(encode_basic("name", "pass:word"), "Basic bmFtZTpwYXNzOndvcmQ=");
    assert_eq!(encode_basic("", ""), "Basic Og==");
}

#[test]
fn encode_then_decode_round_trips() {
    let cases = [
        ("name", "password"),
        ("name", "pass:word"),
        ("", ""),
        ("emptypass", ""),
        ("", "secret"),
        ("snowman \u{2603}", "p\u{00e4}ss\u{2603}w\u{00f6}rd:extra"),
    ];
    for (username, password) in cases {
        let header = encode_basic(username, password);
        let auth = BasicAuth::new(&header).unwrap();
        assert_eq!(auth.username, username);
        assert_eq!(auth.password, password);
    }
}
