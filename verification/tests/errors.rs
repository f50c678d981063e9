use waseda_moodle_checker::error::{Error, ErrorKind};
use waseda_moodle_checker::login::LoginInfo;

#[test]
fn each_kind_has_its_message() {
    assert_eq!(
        ErrorKind::LoginRequired.message(),
        "you must be logged in before doing this operation"
    );
    assert_eq!(ErrorKind::IoError.message(), "io error");
    assert_eq!(ErrorKind::LoginError.message(), "login error");
    assert_eq!(ErrorKind::InvalidResponse.message(), "received invalid response");
    assert_eq!(ErrorKind::NetworkError.message(), "network error");
}

#[test]
fn a_failure_is_described_in_one_line() {
    let plain = Error::from(ErrorKind::LoginRequired);
    assert_eq!(plain.kind, ErrorKind::LoginRequired);
    assert!(plain.cause.is_none());
    assert_eq!(plain.description(), "you must be logged in before doing this operation");

    let named = Error::caused_by(ErrorKind::NetworkError, "timed out");
    assert_eq!(named.kind, ErrorKind::NetworkError);
    assert_eq!(named.cause.as_deref(), Some("timed out"));
    assert_eq!(named.description(), "network error: timed out");

    let caused = Error::with_cause(ErrorKind::IoError, "permission denied".to_string());
    assert_eq!(caused.kind, ErrorKind::IoError);
    assert_eq!(caused.description(), "io error: permission denied");
}

#[test]
fn credentials_need_both_options() {
    let both = LoginInfo::from_options(Some("me"), Some("secret")).unwrap();
    assert_eq!(both.login_id, "me");
    assert_eq!(both.password, "secret");
    assert!(LoginInfo::from_options(Some("me"), None).is_none());
    assert!(LoginInfo::from_options(None, Some("secret")).is_none());
    assert!(LoginInfo::from_options(None, None).is_none());
}

#[test]
fn supplied_credentials_come_before_stored_ones() {
    let found = LoginInfo::resolve(
        Some(LoginInfo::new("supplied", "a")),
        Some(LoginInfo::new("stored", "b")),
    );
    assert_eq!(found.ok().unwrap().login_id, "supplied");
    let found = LoginInfo::resolve(None, Some(LoginInfo::new("stored", "b")));
    let found = found.ok().unwrap();
    assert_eq!(found.login_id, "stored");
    assert_eq!(found.password, "b");
}

#[test]
fn without_credentials_logging_in_is_required() {
    assert!(matches!(LoginInfo::resolve(None, None), Err(ErrorKind::LoginRequired)));
    assert!(matches!(LoginInfo::load(None), Err(ErrorKind::LoginRequired)));
    assert_eq!(LoginInfo::load(Some(LoginInfo::new("me", "pw"))).ok().unwrap().login_id, "me");
}
