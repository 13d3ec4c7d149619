use hujingzhi::auth::{
    admin_port_text, api_url, authorize, basic_auth_header, basic_header_of, check_basic_auth,
    check_credentials,
    default_target_text, generated_auth_config, make_cryptographic_token, token_from_draw,
    token_of, AuthError, TokenError,
};

#[test]
fn token_is_sixty_four_lowercase_hex_digits() {
    let token = make_cryptographic_token().unwrap();
    assert_eq!(token.len(), 64);
    assert!(token.chars().all(|c| c.is_ascii_digit() || ('a'..='f').contains(&c)));
    let other = make_cryptographic_token().unwrap();
    assert_ne!(token, other);
}

#[test]
fn token_of_bytes_is_their_hex_form() {
    assert_eq!(token_of(&vec![0xde, 0xad, 0xbe, 0xef, 0x01]), "deadbeef01");
}

#[test]
fn right_token_passes() {
    // base64 of "user:secret"
    assert_eq!(check_basic_auth("dXNlcjpzZWNyZXQ=", "secret"), Ok(()));
    // base64 of ":secret"
    assert_eq!(check_basic_auth("OnNlY3JldA==", "secret"), Ok(()));
}

#[test]
fn token_may_hold_colons() {
    // base64 of "u:a:b"
    assert_eq!(check_basic_auth("dTphOmI=", "a:b"), Ok(()));
    assert_eq!(check_basic_auth("dTphOmI=", "b"), Err(AuthError::WrongToken));
}

#[test]
fn wrong_token_is_refused() {
    assert_eq!(check_basic_auth("dXNlcjpzZWNyZXQ=", "other"), Err(AuthError::WrongToken));
    assert_eq!(check_basic_auth("dXNlcjpzZWNyZXQ=", "secre"), Err(AuthError::WrongToken));
    assert_eq!(check_basic_auth("dXNlcjpzZWNyZXQ=", "secret2"), Err(AuthError::WrongToken));
    // base64 of "user:"
    assert_eq!(check_basic_auth("dXNlcjo=", "secret"), Err(AuthError::WrongToken));
}

#[test]
fn malformed_credentials_are_told_apart() {
    assert_eq!(check_basic_auth("not base64!", "secret"), Err(AuthError::InvalidBase64));
    // base64 of the bytes ff fe
    assert_eq!(check_basic_auth("//4=", "secret"), Err(AuthError::InvalidUtf8));
    // base64 of "secret"
    assert_eq!(check_basic_auth("c2VjcmV0", "secret"), Err(AuthError::NoToken));
    // base64 of the empty string
    assert_eq!(check_basic_auth("", "secret"), Err(AuthError::NoToken));
}

#[test]
fn decoded_credentials_are_checked_byte_by_byte() {
    assert_eq!(check_credentials(&b"u:tok".to_vec(), &b"tok".to_vec()), Ok(()));
    assert_eq!(check_credentials(&b":".to_vec(), &b"".to_vec()), Ok(()));
    assert_eq!(check_credentials(&b"u:tok".to_vec(), &b"toK".to_vec()), Err(AuthError::WrongToken));
    assert_eq!(check_credentials(&vec![0xff, 0x3a, 0x61], &b"a".to_vec()), Err(AuthError::InvalidUtf8));
    assert_eq!(check_credentials(&b"utok".to_vec(), &b"tok".to_vec()), Err(AuthError::NoToken));
}

#[test]
fn header_must_be_basic() {
    assert_eq!(authorize(None, "secret"), Err(AuthError::MissingHeader));
    assert_eq!(authorize(Some("".to_string()), "secret"), Err(AuthError::MissingHeader));
    assert_eq!(
        authorize(Some("Bearer dXNlcjpzZWNyZXQ=".to_string()), "secret"),
        Err(AuthError::MissingHeader)
    );
    assert_eq!(
        authorize(Some("basic dXNlcjpzZWNyZXQ=".to_string()), "secret"),
        Err(AuthError::MissingHeader)
    );
    assert_eq!(authorize(Some("Basic dXNlcjpzZWNyZXQ=".to_string()), "secret"), Ok(()));
    assert_eq!(
        authorize(Some("Basic dXNlcjpzZWNyZXQ=".to_string()), "nope"),
        Err(AuthError::WrongToken)
    );
    assert_eq!(authorize(Some("Basic ".to_string()), "secret"), Err(AuthError::NoToken));
}

#[test]
fn refusals_have_their_texts() {
    assert_eq!(AuthError::InvalidBase64.message(), "Invalid base64");
    assert_eq!(AuthError::InvalidUtf8.message(), "Invalid UTF-8 inside base64");
    assert_eq!(AuthError::NoToken.message(), "No token");
    assert_eq!(AuthError::WrongToken.message(), "Wrong token");
    assert_eq!(
        AuthError::MissingHeader.message(),
        "Authorization header is required, like:\n\n  Authorization: Basic <base64 of \"any username:server token\">\n"
    );
}

#[test]
fn client_header_carries_an_empty_user_name() {
    assert_eq!(basic_auth_header("secret"), "Basic OnNlY3JldA==");
    assert_eq!(authorize(Some(basic_auth_header("secret")), "secret"), Ok(()));
    let token = make_cryptographic_token().unwrap();
    assert_eq!(authorize(Some(basic_auth_header(&token)), &token), Ok(()));
}

#[test]
fn admin_port_is_what_follows_the_first_colon() {
    assert_eq!(admin_port_text("example.com:8443"), Some("8443".to_string()));
    assert_eq!(admin_port_text("example.com"), None);
    assert_eq!(admin_port_text("a:b:c"), Some("b:c".to_string()));
    assert_eq!(api_url("8443"), "https://hujingzhi:8443/api");
}

#[test]
fn generated_config_names_the_example_host() {
    let config = generated_auth_config("CERT".to_string(), "KEY".to_string(), "tok".to_string());
    assert_eq!(config.host, Some("example.com".to_string()));
    assert_eq!(config.cert, "CERT");
    assert_eq!(config.private, Some("KEY".to_string()));
    assert_eq!(config.token, "tok");
    assert_eq!(default_target_text(), "# No orchestration target set\nprocesses: []\n");
}

#[test]
fn header_is_scheme_then_credentials() {
    assert_eq!(basic_header_of("OnRvaw=="), "Basic OnRvaw==");
}

#[test]
fn token_follows_the_draw() {
    assert_eq!(token_from_draw(Ok(vec![0x00, 0xff, 0x1a])), Ok("00ff1a".to_string()));
    assert_eq!(token_from_draw(Ok(vec![])), Ok("".to_string()));
    assert_eq!(
        token_from_draw(Err(rand::Error::new("no entropy"))),
        Err(TokenError::EntropyUnavailable)
    );
}
