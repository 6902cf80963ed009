use zero2prod::auth::{basic_authentication, BasicAuthError, PublishError};
use zero2prod::configuration::Environment;

#[test]
fn environment_names() {
    assert_eq!(Environment::Local.as_str(), "local");
    assert_eq!(Environment::Production.as_str(), "production");
}

#[test]
fn environment_is_parsed_in_any_case() {
    assert_eq!(Environment::parse_name("LOCAL".to_string()), Ok(Environment::Local));
    assert_eq!(Environment::parse_name("Production".to_string()), Ok(Environment::Production));
}

#[test]
fn unknown_environment_is_refused_with_a_message() {
    assert_eq!(
        Environment::parse_name("Staging".to_string()),
        Err("staging is not a supported environment. Use either 'local' or 'production'.".to_string())
    );
}

#[test]
fn lower_case_names_map_directly() {
    assert_eq!(Environment::from_lowercase_name("local".to_string()), Ok(Environment::Local));
    assert!(Environment::from_lowercase_name("LOCAL".to_string()).is_err());
}

#[test]
fn basic_credentials_are_read() {
    let c = basic_authentication(Some(b"Basic dXNlcjpwYXNz")).unwrap();
    assert_eq!(c.username, "user");
    assert_eq!(c.password, "pass");
}

#[test]
fn password_keeps_later_colons() {
    let c = basic_authentication(Some(b"Basic YTpiOmM=")).unwrap();
    assert_eq!(c.username, "a");
    assert_eq!(c.password, "b:c");
}

#[test]
fn basic_auth_errors() {
    assert_eq!(basic_authentication(None).err(), Some(BasicAuthError::MissingHeader));
    assert_eq!(basic_authentication(Some(b"Basic \x01")).err(), Some(BasicAuthError::NotVisibleAscii));
    assert_eq!(basic_authentication(Some(b"Bearer abc")).err(), Some(BasicAuthError::NotBasicScheme));
    assert_eq!(basic_authentication(Some(b"Basic")).err(), Some(BasicAuthError::NotBasicScheme));
    assert_eq!(basic_authentication(Some(b"Basic !!!")).err(), Some(BasicAuthError::InvalidBase64));
    assert_eq!(basic_authentication(Some(b"Basic /w==")).err(), Some(BasicAuthError::InvalidUtf8));
    assert_eq!(basic_authentication(Some(b"Basic dXNlcg==")).err(), Some(BasicAuthError::MissingPassword));
}

#[test]
fn auth_error_asks_for_basic_credentials() {
    let r = PublishError::AuthError("unknown user".to_string()).error_response();
    assert_eq!(r.status_code, 401);
    assert_eq!(r.headers.len(), 1);
    assert_eq!(r.headers[0].name, "www-authenticate");
    assert_eq!(r.headers[0].value, b"Basic realm=\"publish\"".to_vec());
    assert!(r.body.is_empty());
}

#[test]
fn unexpected_error_is_a_server_error() {
    let r = PublishError::UnexpectedError("db down".to_string()).error_response();
    assert_eq!(r.status_code, 500);
    assert!(r.headers.is_empty());
}
