//! Directory configuration, key-generation decisions, key-load error
//! mapping, the password generator and the error type.

use rspass::config::Config;
use rspass::keys::{generate_keys_action, key_load_error, DirCreation, Keys, KeyLoadFailure};
use rspass::password::generate_password;
use rspass::{Error, ErrorKind};

#[test]
fn config_is_set_once() {
    let mut c = Config::new();
    assert!(c.get_home_dir().is_none());
    assert!(c.get_config_dir().is_none());
    c.set_home_dir("/home/alice".to_string()).unwrap();
    assert_eq!(c.get_home_dir().unwrap(), "/home/alice");
    let err = c.set_home_dir("/home/bob".to_string()).unwrap_err();
    assert_eq!(err.kind, ErrorKind::ConfigAlreadySet);
    assert_eq!(c.get_home_dir().unwrap(), "/home/alice");
    c.set_config_dir("/home/alice/.config".to_string()).unwrap();
    let err = c.set_config_dir("/elsewhere".to_string()).unwrap_err();
    assert_eq!(err.kind, ErrorKind::ConfigAlreadySet);
    assert_eq!(c.get_config_dir().unwrap(), "/home/alice/.config");
}

#[test]
fn paths_follow_the_layout() {
    let mut c = Config::new();
    assert_eq!(c.get_repo_path(), "./.local/share/rspass");
    assert!(c.get_config_path().is_none());
    c.set_home_dir("/home/alice".to_string()).unwrap();
    c.set_config_dir("/home/alice/.config".to_string()).unwrap();
    assert_eq!(c.get_repo_path(), "/home/alice/.local/share/rspass");
    assert_eq!(c.get_config_path().unwrap(), "/home/alice/.config/rspass");
}

#[test]
fn keygen_decision_is_idempotent_and_maps_failures() {
    assert_eq!(generate_keys_action(DirCreation::Created).unwrap(), true);
    assert_eq!(generate_keys_action(DirCreation::AlreadyExists).unwrap(), false);
    let err = generate_keys_action(DirCreation::PermissionDenied).unwrap_err();
    assert_eq!(err.kind, ErrorKind::PermissionDenied);
    let err = generate_keys_action(DirCreation::OtherFailure).unwrap_err();
    assert_eq!(err.kind, ErrorKind::Internal);
}

#[test]
fn key_load_failures_map_to_the_taxonomy() {
    let err = key_load_error(KeyLoadFailure::Missing, "public key not found");
    assert_eq!(err.kind, ErrorKind::NotInitialized);
    assert_eq!(err.message, "public key not found");
    let err = key_load_error(KeyLoadFailure::Invalid, "invalid public key");
    assert_eq!(err.kind, ErrorKind::BadConfig);
}

#[test]
fn keys_hold_the_three_artifacts() {
    let k = Keys {
        pub_key: "armored public".to_string(),
        private_key: "armored secret".to_string(),
        rsa_pub_key: "pem".to_string(),
    };
    assert_eq!(k.pub_key, "armored public");
    assert_eq!(k.private_key, "armored secret");
    assert_eq!(k.rsa_pub_key, "pem");
}

#[test]
fn error_new_keeps_kind_and_message() {
    let e = Error::new(ErrorKind::NotFound, "credential not found");
    assert_eq!(e.kind, ErrorKind::NotFound);
    assert_eq!(e.message, "credential not found");
}

#[test]
fn password_length_and_classes() {
    for &len in &[0usize, 1, 4, 5, 12, 64] {
        let p = generate_password(len);
        let expected = if len <= 4 { 4 } else { len };
        assert_eq!(p.chars().count(), expected);
    }
    let p = generate_password(32);
    assert!(p.chars().any(|c| c.is_ascii_uppercase()));
    assert!(p.chars().any(|c| c.is_ascii_lowercase()));
    assert!(p.chars().any(|c| c.is_ascii_digit()));
    assert!(p.chars().any(|c| "!@#$%^&*()".contains(c)));
}

#[test]
fn passwords_differ_between_calls() {
    let a = generate_password(24);
    let b = generate_password(24);
    assert_ne!(a, b);
}
